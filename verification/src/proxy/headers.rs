//! The headers that go upstream with a request.
//!
//! Hop-by-hop headers and `Content-Length` are dropped; `Content-Encoding` is
//! dropped when the proxy decodes the body; every other header goes on with its
//! values in order. Then the proxy records itself: the client's address is added
//! to `X-Forwarded-For`, and `X-Forwarded-Proto` and `X-Forwarded-Host` are set
//! where the client did not set them.
use crate::proxy::encoding::RequestContentEncoding;
use crate::proxy::error::ProxyError;
use crate::proxy::header_map::{
    field_values, header_entries, header_map_append_value, header_map_contains_key,
    header_map_entries, header_map_get, header_map_insert, header_map_len, header_value_from_bytes,
    is_header_name, is_header_value, lemma_field_values_len,
    lemma_field_values_take_succ, lemma_take_all, new_header_map, MAX_HEADER_ENTRIES,
};
use crate::text::{
    ascii_bytes, bytes_eq_str, check_visible_ascii, is_visible_ascii, lemma_bytes_deep_view,
    str_ascii_bytes,
};
use axum::http::HeaderMap;
use vstd::prelude::*;
use vstd::string::*;

verus! {

broadcast use lemma_bytes_deep_view;

/// The hop-by-hop headers of RFC 9110, which concern one connection and are not
/// forwarded.
pub open spec fn is_hop_by_hop(name: Seq<u8>) -> bool {
    ||| name == ascii_bytes("connection"@)
    ||| name == ascii_bytes("keep-alive"@)
    ||| name == ascii_bytes("proxy-authenticate"@)
    ||| name == ascii_bytes("proxy-authorization"@)
    ||| name == ascii_bytes("te"@)
    ||| name == ascii_bytes("trailer"@)
    ||| name == ascii_bytes("transfer-encoding"@)
    ||| name == ascii_bytes("upgrade"@)
}

/// Whether a request header goes upstream.
pub open spec fn is_forwarded_request_header(
    name: Seq<u8>,
    content_encoding: RequestContentEncoding,
) -> bool {
    &&& !is_hop_by_hop(name)
    &&& name != ascii_bytes("content-length"@)
    &&& !(content_encoding != RequestContentEncoding::Identity && name == ascii_bytes(
        "content-encoding"@,
    ))
}

/// The values under `name` that go upstream unchanged.
pub open spec fn forwarded_request_values(
    entries: Seq<(Seq<u8>, Seq<u8>)>,
    content_encoding: RequestContentEncoding,
    name: Seq<u8>,
) -> Seq<Seq<u8>> {
    if is_forwarded_request_header(name, content_encoding) {
        field_values(entries, name)
    } else {
        Seq::empty()
    }
}

/// Every value that goes upstream unchanged is one that `http` accepts.
pub open spec fn forwarded_values_valid(
    entries: Seq<(Seq<u8>, Seq<u8>)>,
    content_encoding: RequestContentEncoding,
) -> bool {
    forall|i: int|
        0 <= i < entries.len() && is_forwarded_request_header(
            #[trigger] entries[i].0,
            content_encoding,
        ) ==> is_header_value(entries[i].1)
}

/// `X-Forwarded-For` with `client` added: after the first value the client sent,
/// separated by `", "`, or alone.
pub open spec fn forwarded_for_value(existing: Seq<Seq<u8>>, client: Seq<u8>) -> Seq<u8> {
    if existing.len() > 0 {
        existing[0] + ascii_bytes(", "@) + client
    } else {
        client
    }
}

pub open spec fn x_forwarded_for() -> Seq<u8> {
    ascii_bytes("x-forwarded-for"@)
}

pub open spec fn x_forwarded_proto() -> Seq<u8> {
    ascii_bytes("x-forwarded-proto"@)
}

pub open spec fn x_forwarded_host() -> Seq<u8> {
    ascii_bytes("x-forwarded-host"@)
}

pub open spec fn host() -> Seq<u8> {
    ascii_bytes("host"@)
}

/// Why the headers of a request cannot go upstream.
pub enum HeaderFailure {
    /// A value that `http` does not accept.
    InvalidValue,
    /// An `X-Forwarded-For` value that cannot be read as text.
    InvalidForwardedFor,
}

/// Why the headers in `entries` cannot go upstream from `client`, checked in the
/// order in which the proxy builds them; `None` when they can.
pub open spec fn request_header_failure(
    entries: Seq<(Seq<u8>, Seq<u8>)>,
    content_encoding: RequestContentEncoding,
    client: Seq<u8>,
) -> Option<HeaderFailure> {
    let existing = field_values(entries, x_forwarded_for());
    if !forwarded_values_valid(entries, content_encoding) {
        Some(HeaderFailure::InvalidValue)
    } else if existing.len() > 0 && !is_visible_ascii(existing[0]) {
        Some(HeaderFailure::InvalidForwardedFor)
    } else if !is_header_value(forwarded_for_value(existing, client)) {
        Some(HeaderFailure::InvalidValue)
    } else if field_values(entries, x_forwarded_host()).len() == 0 && field_values(
        entries,
        host(),
    ).len() > 0 && !is_header_value(field_values(entries, host())[0]) {
        Some(HeaderFailure::InvalidValue)
    } else {
        None
    }
}

/// The values under `name` of the headers that go upstream for a request with
/// headers `entries` from `client`.
pub open spec fn upstream_request_values(
    entries: Seq<(Seq<u8>, Seq<u8>)>,
    content_encoding: RequestContentEncoding,
    client: Seq<u8>,
    name: Seq<u8>,
) -> Seq<Seq<u8>> {
    if name == x_forwarded_for() {
        seq![forwarded_for_value(field_values(entries, x_forwarded_for()), client)]
    } else if name == x_forwarded_proto() {
        if field_values(entries, x_forwarded_proto()).len() > 0 {
            field_values(entries, x_forwarded_proto())
        } else {
            seq![ascii_bytes("http"@)]
        }
    } else if name == x_forwarded_host() {
        if field_values(entries, x_forwarded_host()).len() > 0 {
            field_values(entries, x_forwarded_host())
        } else if field_values(entries, host()).len() > 0 {
            seq![field_values(entries, host())[0]]
        } else {
            Seq::empty()
        }
    } else {
        forwarded_request_values(entries, content_encoding, name)
    }
}

/// The names that the proxy looks up are header names, and none of them is
/// dropped on the way upstream.
pub proof fn lemma_forwarding_names()
    ensures
        is_header_name(x_forwarded_for()),
        is_header_name(x_forwarded_proto()),
        is_header_name(x_forwarded_host()),
        is_header_name(host()),
        is_header_value(ascii_bytes("http"@)),
        ascii_bytes(", "@) == seq![44u8, 32u8],
        forall|e: RequestContentEncoding|
            is_forwarded_request_header(x_forwarded_for(), e) && is_forwarded_request_header(
                x_forwarded_proto(),
                e,
            ) && is_forwarded_request_header(x_forwarded_host(), e)
                && is_forwarded_request_header(host(), e),
        x_forwarded_for() != x_forwarded_proto(),
        x_forwarded_for() != x_forwarded_host(),
        x_forwarded_proto() != x_forwarded_host(),
{
    lemma_connection_header_names();
    reveal_strlit("x-forwarded-for");
    reveal_strlit("x-forwarded-proto");
    reveal_strlit("x-forwarded-host");
    reveal_strlit("host");
    reveal_strlit("http");
    reveal_strlit(", ");
    let a = x_forwarded_for();
    let b = x_forwarded_proto();
    let c = x_forwarded_host();
    let h = host();
    assert(a =~= seq![120u8, 45, 102, 111, 114, 119, 97, 114, 100, 101, 100, 45, 102, 111, 114]);
    assert(b =~= seq![120u8, 45, 102, 111, 114, 119, 97, 114, 100, 101, 100, 45, 112, 114, 111, 116, 111]);
    assert(c =~= seq![120u8, 45, 102, 111, 114, 119, 97, 114, 100, 101, 100, 45, 104, 111, 115, 116]);
    assert(h =~= seq![104u8, 111, 115, 116]);
    assert(ascii_bytes("http"@) =~= seq![104u8, 116, 116, 112]);
    assert(ascii_bytes(", "@) =~= seq![44u8, 32u8]);
    assert(b.len() != a.len() && b.len() != c.len() && a.len() != c.len());
    assert(c[0] == 120);
}

/// The lengths and first letters of the names that the proxy drops, enough to
/// tell them from each other and from the names it sets.
pub proof fn lemma_connection_header_names()
    ensures
        ascii_bytes("connection"@).len() == 10 && ascii_bytes("connection"@)[0] == 99,
        ascii_bytes("keep-alive"@).len() == 10 && ascii_bytes("keep-alive"@)[0] == 107,
        ascii_bytes("proxy-authenticate"@).len() == 18,
        ascii_bytes("proxy-authorization"@).len() == 19,
        ascii_bytes("te"@).len() == 2,
        ascii_bytes("trailer"@).len() == 7 && ascii_bytes("trailer"@)[0] == 116,
        ascii_bytes("transfer-encoding"@).len() == 17 && ascii_bytes("transfer-encoding"@)[0]
            == 116,
        ascii_bytes("upgrade"@).len() == 7 && ascii_bytes("upgrade"@)[0] == 117,
        ascii_bytes("content-length"@).len() == 14,
        ascii_bytes("content-encoding"@).len() == 16 && ascii_bytes("content-encoding"@)[0]
            == 99,
{
    reveal_strlit("connection");
    reveal_strlit("keep-alive");
    reveal_strlit("proxy-authenticate");
    reveal_strlit("proxy-authorization");
    reveal_strlit("te");
    reveal_strlit("trailer");
    reveal_strlit("transfer-encoding");
    reveal_strlit("upgrade");
    reveal_strlit("content-length");
    reveal_strlit("content-encoding");
}

/// Whether a header concerns one connection only.
pub fn is_hop_by_hop_header(name: &[u8]) -> (r: bool)
    ensures
        r == is_hop_by_hop(name@),
{
    bytes_eq_str(name, "connection") || bytes_eq_str(name, "keep-alive") || bytes_eq_str(
        name,
        "proxy-authenticate",
    ) || bytes_eq_str(name, "proxy-authorization") || bytes_eq_str(name, "te")
        || bytes_eq_str(name, "trailer") || bytes_eq_str(name, "transfer-encoding")
        || bytes_eq_str(name, "upgrade")
}

/// A header value rebuilt from its bytes: the same bytes when `http` accepts
/// them, else the error of `HeaderValue::from_bytes`.
pub fn clone_header_value(value: &[u8]) -> (r: Result<Vec<u8>, ProxyError>)
    ensures
        is_header_value(value@) ==> (r matches Ok(v) && v@ == value@),
        !is_header_value(value@) ==> r matches Err(ProxyError::HeaderValue(_)),
{
    match header_value_from_bytes(value) {
        Ok(v) => Ok(v),
        Err(error) => Err(ProxyError::HeaderValue(error)),
    }
}

/// `value` added to a comma-separated header value: `existing, value`, or
/// `value` alone. The existing value must read as text.
pub fn append_csv_header_value(existing: Option<&[u8]>, value: &str) -> (r: Result<
    Vec<u8>,
    ProxyError,
>)
    ensures
        ({
            let existing_values = match existing {
                Some(e) => seq![e@],
                None => Seq::empty(),
            };
            let joined = forwarded_for_value(existing_values, value.spec_bytes());
            if existing matches Some(e) && !is_visible_ascii(e@) {
                r matches Err(ProxyError::InvalidForwardedHeaderValue(s)) && s@
                    == "x-forwarded-for"@
            } else if is_header_value(joined) {
                r matches Ok(v) && v@ == joined
            } else {
                r matches Err(ProxyError::HeaderValue(_))
            }
        }),
{
    let value_bytes = value.as_bytes();
    match existing {
        Some(existing) => {
            if !check_visible_ascii(existing) {
                return Err(ProxyError::InvalidForwardedHeaderValue(String::from_str("x-forwarded-for")));
            }
            let mut joined: Vec<u8> = Vec::new();
            let mut i: usize = 0;
            while i < existing.len()
                invariant
                    i <= existing@.len(),
                    joined@ =~= existing@.take(i as int),
                decreases existing@.len() - i,
            {
                joined.push(existing[i]);
                i = i + 1;
            }
            joined.push(44u8);
            joined.push(32u8);
            let ghost head = joined@;
            let mut j: usize = 0;
            while j < value_bytes.len()
                invariant
                    j <= value_bytes@.len(),
                    joined@ =~= head + value_bytes@.take(j as int),
                decreases value_bytes@.len() - j,
            {
                joined.push(value_bytes[j]);
                j = j + 1;
            }
            proof {
                reveal_strlit(", ");
                assert(ascii_bytes(", "@) =~= seq![44u8, 32u8]);
                lemma_take_all(existing@);
                lemma_take_all(value_bytes@);
                assert(joined@ =~= existing@ + ascii_bytes(", "@) + value.spec_bytes());
            }
            clone_header_value(joined.as_slice())
        },
        None => clone_header_value(value_bytes),
    }
}

/// The headers in `r` are those that go upstream for a request with headers
/// `original_headers` from `client_ip`, or `r` holds the failure that stops them.
pub open spec fn is_sanitized_request(
    r: Result<HeaderMap, ProxyError>,
    original_headers: HeaderMap,
    content_encoding: RequestContentEncoding,
    client_ip: &str,
) -> bool {
    ({
        let entries = header_entries(original_headers);
        match request_header_failure(entries, content_encoding, client_ip.spec_bytes()) {
            None => r matches Ok(headers) && forall|name: Seq<u8>|
                #[trigger] field_values(header_entries(headers), name)
                    == upstream_request_values(
                    entries,
                    content_encoding,
                    client_ip.spec_bytes(),
                    name,
                ),
            Some(HeaderFailure::InvalidValue) => r matches Err(ProxyError::HeaderValue(_)),
            Some(HeaderFailure::InvalidForwardedFor) => r matches Err(
                ProxyError::InvalidForwardedHeaderValue(s),
            ) && s@ == "x-forwarded-for"@,
        }
    })
}

/// The headers that go upstream for a request with `original_headers`, sent by
/// the client at `client_ip`, whose body has `content_encoding`.
pub fn sanitize_request_headers(
    original_headers: &HeaderMap,
    content_encoding: RequestContentEncoding,
    client_ip: &str,
) -> (r: Result<HeaderMap, ProxyError>)
    requires
        header_entries(*original_headers).len() + 3 < MAX_HEADER_ENTRIES,
    ensures
        is_sanitized_request(r, *original_headers, content_encoding, client_ip),
{
    let entries = header_map_entries(original_headers);
    let ghost all = entries.deep_view();
    let mut headers = new_header_map();
    let mut i: usize = 0;
    assert(all.take(0) =~= Seq::<(Seq<u8>, Seq<u8>)>::empty());
    while i < entries.len()
        invariant
            i <= entries@.len(),
            all == entries.deep_view(),
            all == header_entries(*original_headers),
            all.len() + 3 < MAX_HEADER_ENTRIES,
            header_entries(headers).len() <= i,
            forwarded_values_valid(all.take(i as int), content_encoding),
            forall|name: Seq<u8>|
                #[trigger] field_values(header_entries(headers), name)
                    == forwarded_request_values(all.take(i as int), content_encoding, name),
        decreases entries@.len() - i,
    {
        let name = &entries[i].0;
        let value = &entries[i].1;
        assert(all[i as int] == (name@, value@));
        let compressed = match content_encoding {
            RequestContentEncoding::Identity => false,
            _ => true,
        };
        let dropped = is_hop_by_hop_header(name.as_slice()) || bytes_eq_str(
            name.as_slice(),
            "content-length",
        ) || (compressed && bytes_eq_str(name.as_slice(), "content-encoding"));
        assert(dropped == !is_forwarded_request_header(name@, content_encoding));
        if !dropped {
            let rebuilt = match clone_header_value(value.as_slice()) {
                Ok(v) => v,
                Err(error) => {
                    proof {
                        assert(!is_header_value(all[i as int].1));
                        assert(is_forwarded_request_header(all[i as int].0, content_encoding));
                        assert(!forwarded_values_valid(all, content_encoding));
                        assert(request_header_failure(
                            all,
                            content_encoding,
                            client_ip.spec_bytes(),
                        ) == Some(HeaderFailure::InvalidValue));
                    }
                    return Err(error);
                },
            };
            header_map_append_value(&mut headers, original_headers, i, rebuilt.as_slice());
        }
        proof {
            assert forall|name: Seq<u8>|
                #[trigger] field_values(header_entries(headers), name)
                    == forwarded_request_values(all.take(i + 1), content_encoding, name) by {
                lemma_field_values_take_succ(all, i as int, name);
            }
            assert forall|k: int|
                0 <= k < all.take(i + 1).len() && is_forwarded_request_header(
                    #[trigger] all.take(i + 1)[k].0,
                    content_encoding,
                ) implies is_header_value(all.take(i + 1)[k].1) by {
                if k < i {
                    assert(all.take(i + 1)[k] == all.take(i as int)[k]);
                }
            }
        }
        i = i + 1;
    }
    proof {
        lemma_take_all(all);
        lemma_forwarding_names();
        assert(field_values(header_entries(headers), x_forwarded_for()) == forwarded_request_values(all, content_encoding, x_forwarded_for()));
        assert(field_values(header_entries(headers), x_forwarded_proto()) == forwarded_request_values(all, content_encoding, x_forwarded_proto()));
        assert(field_values(header_entries(headers), x_forwarded_host()) == forwarded_request_values(all, content_encoding, x_forwarded_host()));
    }
    match apply_forwarding_headers(&mut headers, original_headers, client_ip) {
        Ok(()) => Ok(headers),
        Err(error) => Err(error),
    }
}

/// The values under `name` once the forwarding headers are set on a map with
/// entries `current`, for a request with entries `original` from `client`.
pub open spec fn with_forwarding_values(
    current: Seq<(Seq<u8>, Seq<u8>)>,
    original: Seq<(Seq<u8>, Seq<u8>)>,
    client: Seq<u8>,
    name: Seq<u8>,
) -> Seq<Seq<u8>> {
    if name == x_forwarded_for() {
        seq![forwarded_for_value(field_values(current, x_forwarded_for()), client)]
    } else if name == x_forwarded_proto() {
        if field_values(current, x_forwarded_proto()).len() > 0 {
            field_values(current, x_forwarded_proto())
        } else {
            seq![ascii_bytes("http"@)]
        }
    } else if name == x_forwarded_host() {
        if field_values(current, x_forwarded_host()).len() > 0 {
            field_values(current, x_forwarded_host())
        } else if field_values(original, host()).len() > 0 {
            seq![field_values(original, host())[0]]
        } else {
            Seq::empty()
        }
    } else {
        field_values(current, name)
    }
}

/// The forwarding headers set on `headers` for a request with
/// `original_headers` from `client_ip`: the client is added to
/// `X-Forwarded-For`; `X-Forwarded-Proto` becomes `http` and `X-Forwarded-Host`
/// the request's first `Host` value where `headers` has none. A failure before
/// anything is set leaves `headers` as it was; a failure on the `Host` value
/// leaves `X-Forwarded-Host` as it was, after the other two are set.
pub fn apply_forwarding_headers(
    headers: &mut HeaderMap,
    original_headers: &HeaderMap,
    client_ip: &str,
) -> (r: Result<(), ProxyError>)
    requires
        header_entries(*old(headers)).len() + 3 < MAX_HEADER_ENTRIES,
    ensures
        ({
            let current = header_entries(*old(headers));
            let original = header_entries(*original_headers);
            let existing = field_values(current, x_forwarded_for());
            let ip = client_ip.spec_bytes();
            if existing.len() > 0 && !is_visible_ascii(existing[0]) {
                &&& r matches Err(ProxyError::InvalidForwardedHeaderValue(s)) && s@
                    == "x-forwarded-for"@
                &&& *final(headers) == *old(headers)
            } else if !is_header_value(forwarded_for_value(existing, ip)) {
                &&& r matches Err(ProxyError::HeaderValue(_))
                &&& *final(headers) == *old(headers)
            } else if field_values(current, x_forwarded_host()).len() == 0 && field_values(
                original,
                host(),
            ).len() > 0 && !is_header_value(field_values(original, host())[0]) {
                &&& r matches Err(ProxyError::HeaderValue(_))
                &&& forall|name: Seq<u8>|
                    name != x_forwarded_host() ==> #[trigger] field_values(
                        header_entries(*final(headers)),
                        name,
                    ) == with_forwarding_values(current, original, ip, name)
                &&& field_values(header_entries(*final(headers)), x_forwarded_host())
                    == field_values(current, x_forwarded_host())
            } else {
                &&& r is Ok
                &&& forall|name: Seq<u8>|
                    #[trigger] field_values(header_entries(*final(headers)), name)
                        == with_forwarding_values(current, original, ip, name)
            }
        }),
{
    proof {
        lemma_forwarding_names();
    }
    let ghost start = header_entries(*headers);
    let xff = str_ascii_bytes("x-forwarded-for");
    let xfp = str_ascii_bytes("x-forwarded-proto");
    let xfh = str_ascii_bytes("x-forwarded-host");
    let host_name = str_ascii_bytes("host");
    let existing = header_map_get(headers, xff.as_slice());
    let forwarded_for = match existing {
        Some(e) => append_csv_header_value(Some(e.as_slice()), client_ip),
        None => append_csv_header_value(None, client_ip),
    };
    let forwarded_for = match forwarded_for {
        Ok(v) => v,
        Err(error) => {
            return Err(error);
        },
    };
    proof {
        lemma_field_values_len(start, xff@);
    }
    header_map_insert(headers, xff.as_slice(), forwarded_for.as_slice());
    let ghost after_xff = header_entries(*headers);
    if !header_map_contains_key(headers, xfp.as_slice()) {
        let http = str_ascii_bytes("http");
        proof {
            lemma_field_values_len(after_xff, xfp@);
        }
        header_map_insert(headers, xfp.as_slice(), http.as_slice());
    }
    let ghost after_xfp = header_entries(*headers);
    match header_map_get(original_headers, host_name.as_slice()) {
        Some(host_value) => {
            if !header_map_contains_key(headers, xfh.as_slice()) {
                let value = match clone_header_value(host_value.as_slice()) {
                    Ok(v) => v,
                    Err(error) => {
                        return Err(error);
                    },
                };
                proof {
                    lemma_field_values_len(after_xfp, xfh@);
                }
                header_map_insert(headers, xfh.as_slice(), value.as_slice());
            }
        },
        None => {},
    }
    Ok(())
}

/// The headers that go upstream, as `sanitize_request_headers` makes them,
/// when `original_headers` leaves the header map room for the forwarding
/// headers; `None` when it holds so many values that the map could not be
/// counted on to grow.
pub fn try_sanitize_request_headers(
    original_headers: &HeaderMap,
    content_encoding: RequestContentEncoding,
    client_ip: &str,
) -> (r: Option<Result<HeaderMap, ProxyError>>)
    ensures
        match r {
            None => header_entries(*original_headers).len() + 3 >= MAX_HEADER_ENTRIES,
            Some(sanitized) => header_entries(*original_headers).len() + 3 < MAX_HEADER_ENTRIES
                && is_sanitized_request(sanitized, *original_headers, content_encoding, client_ip),
        },
{
    if header_map_len(original_headers) >= MAX_HEADER_ENTRIES - 3 {
        return None;
    }
    Some(sanitize_request_headers(original_headers, content_encoding, client_ip))
}

} // verus!
