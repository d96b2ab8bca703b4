//! Properties of the proxy as a whole, stated over the specifications that the
//! contracts of its functions use.
use crate::proxy::encoding::{
    clean_pieces, content_encoding_of, encoding_from_tokens, encoding_tokens, normalize_token,
    split_commas, value_tokens, RequestContentEncoding,
};
use crate::proxy::error::{status_of, ProxyError};
use crate::proxy::header_map::{field_values, header_entries};
use crate::proxy::headers::{
    forwarded_for_value, host, is_forwarded_request_header, is_hop_by_hop,
    lemma_connection_header_names, lemma_forwarding_names,
    is_sanitized_request, upstream_request_values, x_forwarded_for, x_forwarded_host,
    x_forwarded_proto,
};
use crate::proxy::request::is_prepared_request;
use axum::http::HeaderMap;
use crate::proxy::upstream::is_filtered_response;
use crate::text::{
    ascii_bytes, ascii_chars, ascii_lowercase, is_space, is_visible_ascii, is_visible_ascii_byte, lower_byte,
    trim, trim_end, trim_start,
};
use vstd::prelude::*;
use vstd::string::*;

verus! {

/// Each value lowered.
pub open spec fn lowercase_values(values: Seq<Seq<u8>>) -> Seq<Seq<u8>> {
    Seq::new(values.len(), |i: int| ascii_lowercase(values[i]))
}

proof fn lemma_lower_byte_facts(b: u8)
    ensures
        lower_byte(lower_byte(b)) == lower_byte(b),
        is_space(lower_byte(b)) == is_space(b),
        (lower_byte(b) == 44) == (b == 44),
        is_visible_ascii_byte(lower_byte(b)) == is_visible_ascii_byte(b),
{
}

proof fn lemma_split_commas_lowercase(v: Seq<u8>)
    ensures
        split_commas(ascii_lowercase(v)) == lowercase_values(split_commas(v)),
    decreases v.len(),
{
    if v.len() > 0 {
        let l = ascii_lowercase(v);
        assert(l.drop_last() =~= ascii_lowercase(v.drop_last()));
        lemma_split_commas_lowercase(v.drop_last());
        lemma_lower_byte_facts(v.last());
        crate::proxy::encoding::lemma_split_commas_nonempty(v.drop_last());
        let pieces = split_commas(v.drop_last());
        assert(l.last() == lower_byte(v.last()));
        if v.last() == 44 {
            assert(l.last() == 44);
            assert(ascii_lowercase(Seq::<u8>::empty()) =~= Seq::<u8>::empty());
            assert(split_commas(l) =~~= lowercase_values(split_commas(v)));
        } else {
            let lp = lowercase_values(pieces);
            assert(ascii_lowercase(pieces.last().push(v.last())) =~= lp.last().push(l.last()));
            assert(split_commas(l) =~= lowercase_values(split_commas(v)));
        }
    } else {
        assert(ascii_lowercase(v) =~= Seq::<u8>::empty());
        assert(ascii_lowercase(Seq::<u8>::empty()) =~= Seq::<u8>::empty());
        assert(split_commas(ascii_lowercase(v)) =~~= lowercase_values(split_commas(v)));
    }
}

proof fn lemma_trim_start_lowercase(t: Seq<u8>)
    ensures
        trim_start(ascii_lowercase(t)) == ascii_lowercase(trim_start(t)),
    decreases t.len(),
{
    if t.len() > 0 {
        lemma_lower_byte_facts(t[0]);
        assert(ascii_lowercase(t).drop_first() =~= ascii_lowercase(t.drop_first()));
        lemma_trim_start_lowercase(t.drop_first());
    }
}

proof fn lemma_trim_end_lowercase(t: Seq<u8>)
    ensures
        trim_end(ascii_lowercase(t)) == ascii_lowercase(trim_end(t)),
    decreases t.len(),
{
    if t.len() > 0 {
        lemma_lower_byte_facts(t.last());
        assert(ascii_lowercase(t).drop_last() =~= ascii_lowercase(t.drop_last()));
        lemma_trim_end_lowercase(t.drop_last());
    }
}

proof fn lemma_normalize_lowercase(t: Seq<u8>)
    ensures
        normalize_token(ascii_lowercase(t)) == normalize_token(t),
{
    lemma_trim_start_lowercase(t);
    lemma_trim_end_lowercase(trim_start(t));
    let x = trim(t);
    assert forall|i: int| 0 <= i < x.len() implies #[trigger] lower_byte(lower_byte(x[i]))
        == lower_byte(x[i]) by {
        lemma_lower_byte_facts(x[i]);
    }
    assert(ascii_lowercase(ascii_lowercase(x)) =~= ascii_lowercase(x));
}

proof fn lemma_clean_pieces_lowercase(pieces: Seq<Seq<u8>>)
    ensures
        clean_pieces(lowercase_values(pieces)) == clean_pieces(pieces),
    decreases pieces.len(),
{
    if pieces.len() > 0 {
        assert(lowercase_values(pieces).drop_last() =~= lowercase_values(pieces.drop_last()));
        lemma_clean_pieces_lowercase(pieces.drop_last());
        lemma_normalize_lowercase(pieces.last());
    }
}

proof fn lemma_value_tokens_lowercase(v: Seq<u8>)
    ensures
        value_tokens(ascii_lowercase(v)) == value_tokens(v),
        is_visible_ascii(ascii_lowercase(v)) == is_visible_ascii(v),
{
    lemma_split_commas_lowercase(v);
    lemma_clean_pieces_lowercase(split_commas(v));
    let l = ascii_lowercase(v);
    if is_visible_ascii(v) {
        assert forall|i: int| 0 <= i < l.len() implies is_visible_ascii_byte(#[trigger] l[i]) by {
            lemma_lower_byte_facts(v[i]);
        }
    }
    if is_visible_ascii(l) {
        assert forall|i: int| 0 <= i < v.len() implies is_visible_ascii_byte(#[trigger] v[i]) by {
            lemma_lower_byte_facts(v[i]);
            assert(is_visible_ascii_byte(l[i]));
        }
    }
}

proof fn lemma_encoding_tokens_lowercase(values: Seq<Seq<u8>>)
    ensures
        encoding_tokens(lowercase_values(values)) == encoding_tokens(values),
    decreases values.len(),
{
    if values.len() > 0 {
        assert(lowercase_values(values).drop_last() =~= lowercase_values(values.drop_last()));
        lemma_encoding_tokens_lowercase(values.drop_last());
        lemma_value_tokens_lowercase(values.last());
    }
}

/// `Content-Encoding` is read without regard to the case of letters: lowering
/// every value gives the same encoding, or the same refusal.
pub proof fn law_content_encoding_ignores_case(values: Seq<Seq<u8>>)
    ensures
        content_encoding_of(lowercase_values(values)) == content_encoding_of(values),
{
    lemma_encoding_tokens_lowercase(values);
}

/// A request without `Content-Encoding` has a plain body.
pub proof fn law_no_content_encoding_is_identity()
    ensures
        content_encoding_of(Seq::empty()) == Ok::<RequestContentEncoding, Seq<char>>(
            RequestContentEncoding::Identity,
        ),
{
}

proof fn lemma_split_commas_without_comma(v: Seq<u8>)
    requires
        forall|i: int| 0 <= i < v.len() ==> v[i] != 44,
    ensures
        split_commas(v) == seq![v],
    decreases v.len(),
{
    if v.len() > 0 {
        lemma_split_commas_without_comma(v.drop_last());
        assert(seq![v.drop_last()].last().push(v.last()) =~= v);
        assert(split_commas(v) =~= seq![v]);
    } else {
        assert(v =~= Seq::<u8>::empty());
    }
}

/// A word without commas, white space or capitals, read as one token.
proof fn lemma_single_token(t: Seq<u8>)
    requires
        t.len() > 0,
        forall|i: int| 0 <= i < t.len() ==> 97 <= #[trigger] t[i] <= 122,
    ensures
        value_tokens(t) == seq![t],
        is_visible_ascii(t),
{
    lemma_split_commas_without_comma(t);
    assert(trim_start(t) == t);
    assert(trim_end(t) == t);
    assert(ascii_lowercase(t) =~= t);
    assert(normalize_token(t) == t);
    let pieces = seq![t];
    assert(pieces.drop_last() =~= Seq::<Seq<u8>>::empty());
    assert(pieces.last() == t);
    assert(clean_pieces(Seq::<Seq<u8>>::empty()) == Seq::<Seq<u8>>::empty());
    assert(clean_pieces(pieces) =~= seq![t]);
    assert forall|i: int| 0 <= i < t.len() implies is_visible_ascii_byte(#[trigger] t[i]) by {
        assert(97 <= t[i] <= 122);
    }
}

/// The token that names an encoding is read back as that encoding.
pub proof fn law_encoding_label_round_trip(encoding: RequestContentEncoding)
    ensures
        content_encoding_of(seq![ascii_bytes(encoding.label())]) == Ok::<
            RequestContentEncoding,
            Seq<char>,
        >(encoding),
{
    reveal_strlit("identity");
    reveal_strlit("gzip");
    reveal_strlit("br");
    let identity = ascii_bytes("identity"@);
    let gzip = ascii_bytes("gzip"@);
    let br = ascii_bytes("br"@);
    assert(identity =~= seq![105u8, 100, 101, 110, 116, 105, 116, 121]);
    assert(gzip =~= seq![103u8, 122, 105, 112]);
    assert(br =~= seq![98u8, 114]);
    let t = ascii_bytes(encoding.label());
    assert(forall|i: int| 0 <= i < t.len() ==> 97 <= #[trigger] t[i] <= 122);
    lemma_single_token(t);
    let values = seq![t];
    assert(values.drop_last() =~= Seq::<Seq<u8>>::empty());
    assert(values.last() == t);
    assert(encoding_tokens(Seq::<Seq<u8>>::empty()) == Some(Seq::<Seq<u8>>::empty()));
    assert(encoding_tokens(values) == Some(Seq::<Seq<u8>>::empty() + seq![t]));
    assert(Seq::<Seq<u8>>::empty() + seq![t] =~= seq![t]);
    assert(gzip.len() != identity.len() && br.len() != identity.len() && br.len() != gzip.len());
}

/// No hop-by-hop header and no `Content-Length` goes upstream, and no
/// `Content-Encoding` goes with a body that the proxy decodes.
pub proof fn law_upstream_drops_connection_headers(
    entries: Seq<(Seq<u8>, Seq<u8>)>,
    content_encoding: RequestContentEncoding,
    client: Seq<u8>,
    name: Seq<u8>,
)
    requires
        is_hop_by_hop(name) || name == ascii_bytes("content-length"@) || (content_encoding
            != RequestContentEncoding::Identity && name == ascii_bytes("content-encoding"@)),
    ensures
        upstream_request_values(entries, content_encoding, client, name) == Seq::<
            Seq<u8>,
        >::empty(),
{
    lemma_forwarding_names();
    assert(!is_forwarded_request_header(name, content_encoding));
}

/// Every other header the client sent, but the forwarding headers, goes
/// upstream with all its values in their order.
pub proof fn law_upstream_keeps_end_to_end_headers(
    entries: Seq<(Seq<u8>, Seq<u8>)>,
    content_encoding: RequestContentEncoding,
    client: Seq<u8>,
    name: Seq<u8>,
)
    requires
        is_forwarded_request_header(name, content_encoding),
        name != x_forwarded_for(),
        name != x_forwarded_proto(),
        name != x_forwarded_host(),
    ensures
        upstream_request_values(entries, content_encoding, client, name) == field_values(
            entries,
            name,
        ),
{
}

/// The client's address ends the `X-Forwarded-For` chain that goes upstream,
/// after the chain the client sent, if any.
pub proof fn law_forwarded_for_ends_with_client(
    entries: Seq<(Seq<u8>, Seq<u8>)>,
    content_encoding: RequestContentEncoding,
    client: Seq<u8>,
)
    ensures
        ({
            let sent = field_values(entries, x_forwarded_for());
            let chain = upstream_request_values(
                entries,
                content_encoding,
                client,
                x_forwarded_for(),
            );
            &&& chain.len() == 1
            &&& chain[0] == forwarded_for_value(sent, client)
            &&& sent.len() > 0 ==> chain[0] == sent[0] + seq![44u8, 32u8] + client
            &&& sent.len() == 0 ==> chain[0] == client
        }),
{
    lemma_forwarding_names();
}

/// Headers the client set itself win over the ones the proxy would add:
/// `X-Forwarded-Proto` and `X-Forwarded-Host` go upstream as sent when sent.
pub proof fn law_client_forwarding_headers_win(
    entries: Seq<(Seq<u8>, Seq<u8>)>,
    content_encoding: RequestContentEncoding,
    client: Seq<u8>,
)
    ensures
        field_values(entries, x_forwarded_proto()).len() > 0 ==> upstream_request_values(
            entries,
            content_encoding,
            client,
            x_forwarded_proto(),
        ) == field_values(entries, x_forwarded_proto()),
        field_values(entries, x_forwarded_host()).len() > 0 ==> upstream_request_values(
            entries,
            content_encoding,
            client,
            x_forwarded_host(),
        ) == field_values(entries, x_forwarded_host()),
        field_values(entries, x_forwarded_proto()).len() == 0 ==> upstream_request_values(
            entries,
            content_encoding,
            client,
            x_forwarded_proto(),
        ) == seq![ascii_bytes("http"@)],
        field_values(entries, x_forwarded_host()).len() == 0 && field_values(entries, host()).len()
            > 0 ==> upstream_request_values(
            entries,
            content_encoding,
            client,
            x_forwarded_host(),
        ) == seq![field_values(entries, host())[0]],
{
    lemma_forwarding_names();
}

/// What goes upstream never asks the upstream to decode the body: once the
/// proxy has read the request's `Content-Encoding`, the `Content-Encoding` it
/// forwards reads as a plain body.
pub proof fn law_upstream_body_is_plain(
    entries: Seq<(Seq<u8>, Seq<u8>)>,
    content_encoding: RequestContentEncoding,
    client: Seq<u8>,
)
    requires
        content_encoding_of(field_values(entries, ascii_bytes("content-encoding"@))) == Ok::<
            RequestContentEncoding,
            Seq<char>,
        >(content_encoding),
    ensures
        content_encoding_of(
            upstream_request_values(
                entries,
                content_encoding,
                client,
                ascii_bytes("content-encoding"@),
            ),
        ) == Ok::<RequestContentEncoding, Seq<char>>(RequestContentEncoding::Identity),
{
    lemma_forwarding_names();
    lemma_connection_header_names();
    reveal_strlit("x-forwarded-for");
    reveal_strlit("x-forwarded-proto");
    reveal_strlit("x-forwarded-host");
    let ce = ascii_bytes("content-encoding"@);
    assert(x_forwarded_for()[0] == 120 && x_forwarded_proto()[0] == 120 && x_forwarded_host()[0]
        == 120);
    assert(ce != x_forwarded_for() && ce != x_forwarded_proto() && ce != x_forwarded_host());
    if content_encoding == RequestContentEncoding::Identity {
        assert(!is_hop_by_hop(ce));
        assert(ce != ascii_bytes("content-length"@));
    } else {
        assert(!is_forwarded_request_header(ce, content_encoding));
        assert(encoding_tokens(Seq::<Seq<u8>>::empty()) == Some(Seq::<Seq<u8>>::empty()));
        assert(encoding_from_tokens(Seq::<Seq<u8>>::empty()) == Ok::<
            RequestContentEncoding,
            Seq<u8>,
        >(RequestContentEncoding::Identity));
    }
}

/// Filtering response headers twice gives what filtering once gives: a filtered
/// response holds no hop-by-hop header.
pub proof fn law_response_filter_idempotent(
    upstream: Seq<(Seq<u8>, Seq<u8>)>,
    filtered: Seq<(Seq<u8>, Seq<u8>)>,
    refiltered: Seq<(Seq<u8>, Seq<u8>)>,
)
    requires
        is_filtered_response(filtered, upstream),
        is_filtered_response(refiltered, filtered),
    ensures
        forall|name: Seq<u8>| #[trigger]
            field_values(refiltered, name) == field_values(filtered, name),
{
    assert forall|name: Seq<u8>| #[trigger]
        field_values(refiltered, name) == field_values(filtered, name) by {
        assert(field_values(refiltered, name) == if is_hop_by_hop(name) {
            Seq::<Seq<u8>>::empty()
        } else {
            field_values(filtered, name)
        });
        assert(field_values(filtered, name) == if is_hop_by_hop(name) {
            Seq::<Seq<u8>>::empty()
        } else {
            field_values(upstream, name)
        });
    }
}

/// A request header that the proxy has no reason to drop or to set: not one of
/// the eight hop-by-hop headers of RFC 9110, not `Content-Length`, not
/// `Content-Encoding` of a body that the proxy decodes, and not one of the
/// `X-Forwarded-*` headers it sets itself. Each name is written out here.
pub open spec fn is_end_to_end_request_header(
    name: Seq<u8>,
    content_encoding: RequestContentEncoding,
) -> bool {
    &&& name != ascii_bytes("connection"@)
    &&& name != ascii_bytes("keep-alive"@)
    &&& name != ascii_bytes("proxy-authenticate"@)
    &&& name != ascii_bytes("proxy-authorization"@)
    &&& name != ascii_bytes("te"@)
    &&& name != ascii_bytes("trailer"@)
    &&& name != ascii_bytes("transfer-encoding"@)
    &&& name != ascii_bytes("upgrade"@)
    &&& name != ascii_bytes("content-length"@)
    &&& (content_encoding != RequestContentEncoding::Identity ==> name != ascii_bytes(
        "content-encoding"@,
    ))
    &&& name != ascii_bytes("x-forwarded-for"@)
    &&& name != ascii_bytes("x-forwarded-proto"@)
    &&& name != ascii_bytes("x-forwarded-host"@)
}

/// Every request header but the ones named in `is_end_to_end_request_header`
/// goes upstream with exactly the values the client sent, in their order.
pub proof fn law_upstream_keeps_other_request_headers(
    entries: Seq<(Seq<u8>, Seq<u8>)>,
    content_encoding: RequestContentEncoding,
    client: Seq<u8>,
    name: Seq<u8>,
)
    requires
        is_end_to_end_request_header(name, content_encoding),
    ensures
        upstream_request_values(entries, content_encoding, client, name) == field_values(
            entries,
            name,
        ),
{
}

/// The headers that `sanitize_request_headers` sends upstream keep every
/// header the client sent but the named ones, with the client's values.
pub proof fn law_sanitized_keeps_other_request_headers(
    r: Result<HeaderMap, ProxyError>,
    original_headers: HeaderMap,
    content_encoding: RequestContentEncoding,
    client_ip: &str,
    name: Seq<u8>,
)
    requires
        is_sanitized_request(r, original_headers, content_encoding, client_ip),
        is_end_to_end_request_header(name, content_encoding),
    ensures
        r matches Ok(headers) ==> field_values(header_entries(headers), name) == field_values(
            header_entries(original_headers),
            name,
        ),
{
}

/// Once the proxy decodes a body, the headers it sends upstream hold no
/// `Content-Encoding`, whatever the client sent.
pub proof fn law_sanitized_drops_decoded_content_encoding(
    r: Result<HeaderMap, ProxyError>,
    original_headers: HeaderMap,
    content_encoding: RequestContentEncoding,
    client_ip: &str,
)
    requires
        is_sanitized_request(r, original_headers, content_encoding, client_ip),
        content_encoding != RequestContentEncoding::Identity,
    ensures
        r matches Ok(headers) ==> field_values(
            header_entries(headers),
            ascii_bytes("content-encoding"@),
        ).len() == 0,
{
    law_upstream_drops_connection_headers(
        header_entries(original_headers),
        content_encoding,
        client_ip.spec_bytes(),
        ascii_bytes("content-encoding"@),
    );
}

/// A prepared request whose body the proxy decodes carries no
/// `Content-Encoding` upstream, and every other header the client sent but the
/// named ones goes with the client's values.
pub proof fn law_prepared_request_headers(
    r: Result<crate::proxy::request::UpstreamRequest, ProxyError>,
    upstream_base_url: Seq<char>,
    method: &str,
    path_and_query: Option<&str>,
    headers: HeaderMap,
    client_ip: &str,
    name: Seq<u8>,
)
    requires
        is_prepared_request(r, upstream_base_url, method, path_and_query, headers, client_ip),
    ensures
        r matches Ok(request) ==> (request.content_encoding != RequestContentEncoding::Identity
            ==> field_values(
            header_entries(request.headers),
            ascii_bytes("content-encoding"@),
        ).len() == 0),
        r matches Ok(request) ==> (is_end_to_end_request_header(name, request.content_encoding)
            ==> field_values(header_entries(request.headers), name) == field_values(
            header_entries(headers),
            name,
        )),
{
    if let Ok(request) = r {
        if request.content_encoding != RequestContentEncoding::Identity {
            law_upstream_drops_connection_headers(
            header_entries(headers),
                request.content_encoding,
                client_ip.spec_bytes(),
                ascii_bytes("content-encoding"@),
            );
        }
    }
}

/// The proxy accepts a body's encoding only for no token, or for the single
/// token `identity`, `gzip` or `br` that names it; any other single token is
/// refused with that token as the text.
pub proof fn law_content_encoding_accepts_only_known_tokens(values: Seq<Seq<u8>>)
    ensures
        content_encoding_of(values) matches Ok(encoding) ==> (encoding_tokens(values) matches Some(
            tokens,
        ) && ((tokens.len() == 0 && encoding == RequestContentEncoding::Identity) || (
        tokens.len() == 1 && ((encoding == RequestContentEncoding::Identity && tokens[0]
            == ascii_bytes("identity"@)) || (encoding == RequestContentEncoding::Gzip
            && tokens[0] == ascii_bytes("gzip"@)) || (encoding == RequestContentEncoding::Brotli
            && tokens[0] == ascii_bytes("br"@)))))),
        encoding_tokens(values) matches Some(tokens) ==> (tokens.len() == 1 && tokens[0]
            != ascii_bytes("identity"@) && tokens[0] != ascii_bytes("gzip"@) && tokens[0]
            != ascii_bytes("br"@) ==> content_encoding_of(values) == Err::<
            RequestContentEncoding,
            Seq<char>,
        >(ascii_chars(tokens[0]))),
{
}

/// Which status answers each failure: a body that broke on the way (whatever
/// else is known of it) or a request stream that could not be decoded is the
/// client's fault (400); a timeout is 504; any other upstream failure is 502;
/// an encoding the proxy cannot decode is 415; the proxy's own faults are 500.
pub proof fn law_failure_statuses(error: ProxyError)
    ensures
        error matches ProxyError::Upstream(f) ==> (f.is_body ==> status_of(error) == 400),
        error matches ProxyError::Upstream(f) ==> (f.is_invalid_request_stream ==> status_of(
            error,
        ) == 400),
        error matches ProxyError::Upstream(f) ==> (!f.is_body && !f.is_invalid_request_stream
            && f.is_timeout ==> status_of(error) == 504),
        error matches ProxyError::Upstream(f) ==> (!f.is_body && !f.is_invalid_request_stream
            && !f.is_timeout ==> status_of(error) == 502),
        error is UnsupportedContentEncoding ==> status_of(error) == 415,
        error is HeaderValue || error is InvalidForwardedHeaderValue || error is InvalidUpstreamUrl
            || error is Method ==> status_of(error) == 500,
{
}

/// A response header goes back to the client with exactly the values the
/// upstream sent unless it is one of the eight hop-by-hop headers of RFC 9110,
/// each written out here; those go back with none.
pub proof fn law_response_keeps_end_to_end_headers(
    filtered: Seq<(Seq<u8>, Seq<u8>)>,
    upstream: Seq<(Seq<u8>, Seq<u8>)>,
    name: Seq<u8>,
)
    requires
        is_filtered_response(filtered, upstream),
    ensures
        (name != ascii_bytes("connection"@) && name != ascii_bytes("keep-alive"@) && name
            != ascii_bytes("proxy-authenticate"@) && name != ascii_bytes("proxy-authorization"@)
            && name != ascii_bytes("te"@) && name != ascii_bytes("trailer"@) && name
            != ascii_bytes("transfer-encoding"@) && name != ascii_bytes("upgrade"@))
            ==> field_values(filtered, name) == field_values(upstream, name),
        (name == ascii_bytes("connection"@) || name == ascii_bytes("keep-alive"@) || name
            == ascii_bytes("proxy-authenticate"@) || name == ascii_bytes("proxy-authorization"@)
            || name == ascii_bytes("te"@) || name == ascii_bytes("trailer"@) || name
            == ascii_bytes("transfer-encoding"@) || name == ascii_bytes("upgrade"@))
            ==> field_values(filtered, name).len() == 0,
{
    assert(field_values(filtered, name) == if is_hop_by_hop(name) {
        Seq::<Seq<u8>>::empty()
    } else {
        field_values(upstream, name)
    });
}

} // verus!
