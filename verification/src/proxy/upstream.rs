//! Where a request goes upstream, and which response headers come back.
use crate::proxy::error::ProxyError;
use crate::proxy::header_map::{
    field_values, header_entries, header_map_append_entry, header_map_entries, header_map_len,
    lemma_field_values_take_succ, lemma_take_all, new_header_map, MAX_HEADER_ENTRIES,
};
use crate::proxy::headers::{is_hop_by_hop, is_hop_by_hop_header};
use crate::text::lemma_bytes_deep_view;
use axum::http::HeaderMap;
use vstd::prelude::*;
use vstd::string::*;

verus! {

broadcast use lemma_bytes_deep_view;

/// What `Url::join` of the `url` crate gives for the URL whose serialization is
/// `base` and the reference `input`: the serialization of the joined URL, or the
/// text of the parse error.
pub uninterp spec fn url_join(base: Seq<char>, input: Seq<char>) -> Result<Seq<char>, Seq<char>>;

/// `Url::join` of the `url` crate, on the URL that `Url::parse` reads from
/// `base`. The result is a function of the two texts; what it is, this contract
/// leaves to the `url` crate.
#[verifier::external_body]
fn join_url(base: &str, input: &str) -> (r: Result<String, String>)
    ensures
        match r {
            Ok(joined) => url_join(base@, input@) == Ok::<Seq<char>, Seq<char>>(joined@),
            Err(error) => url_join(base@, input@) == Err::<Seq<char>, Seq<char>>(error@),
        },
{
    match reqwest::Url::parse(base) {
        Ok(base) => match base.join(input) {
            Ok(joined) => Ok(joined.to_string()),
            Err(error) => Err(error.to_string()),
        },
        Err(error) => Err(error.to_string()),
    }
}

/// The part of a request target that the proxy resolves against the upstream
/// base URL: the request's path and query, or `/` when it has none.
pub open spec fn request_reference(path_and_query: Option<&str>) -> Seq<char> {
    match path_and_query {
        Some(p) => p@,
        None => "/"@,
    }
}

/// A slash, or a backslash, which the `url` crate reads as a slash in `http`
/// and `https` URLs.
pub open spec fn is_slash(c: char) -> bool {
    c == '/' || c == '\\'
}

/// A C0 control character or a space, which the `url` crate trims from the
/// ends of its input.
pub open spec fn is_c0_control_or_space(c: char) -> bool {
    c <= ' '
}

/// A tab, line feed or carriage return, which the `url` crate skips wherever it
/// stands in its input.
pub open spec fn is_tab_or_newline(c: char) -> bool {
    c == '\t' || c == '\n' || c == '\r'
}

/// `s` without its leading C0 controls and spaces.
pub open spec fn trim_c0_start(s: Seq<char>) -> Seq<char>
    decreases s.len(),
{
    if s.len() > 0 && is_c0_control_or_space(s[0]) {
        trim_c0_start(s.drop_first())
    } else {
        s
    }
}

/// `s` without its tabs and line breaks.
pub open spec fn skip_tab_and_newline(s: Seq<char>) -> Seq<char>
    decreases s.len(),
{
    if s.len() == 0 {
        s
    } else if is_tab_or_newline(s[0]) {
        skip_tab_and_newline(s.drop_first())
    } else {
        seq![s[0]] + skip_tab_and_newline(s.drop_first())
    }
}

/// The characters of a reference in the order in which the `url` crate reads
/// them: after the leading C0 controls and spaces, without tabs and line
/// breaks. (Trailing C0 controls and spaces, which it trims too, are no
/// slashes and do not change what a reference starts with.)
pub open spec fn url_input_chars(reference: Seq<char>) -> Seq<char> {
    skip_tab_and_newline(trim_c0_start(reference))
}

/// A reference that, as the `url` crate reads it, starts with two slashes names
/// a host of its own: joined to the base URL it would leave the upstream
/// service.
pub open spec fn is_network_path_reference(reference: Seq<char>) -> bool {
    let chars = url_input_chars(reference);
    chars.len() >= 2 && is_slash(chars[0]) && is_slash(chars[1])
}

proof fn lemma_skip_tab_and_newline_step(s: Seq<char>, j: int)
    requires
        0 <= j < s.len(),
    ensures
        skip_tab_and_newline(s.subrange(j, s.len() as int)) == if is_tab_or_newline(s[j]) {
            skip_tab_and_newline(s.subrange(j + 1, s.len() as int))
        } else {
            seq![s[j]] + skip_tab_and_newline(s.subrange(j + 1, s.len() as int))
        },
{
    assert(s.subrange(j, s.len() as int).drop_first() =~= s.subrange(j + 1, s.len() as int));
}

fn is_tab_or_newline_at(text: &str, i: usize) -> (r: bool)
    requires
        i < text@.len(),
    ensures
        r == is_tab_or_newline(text@[i as int]),
{
    let c = text.get_char(i);
    c == '\t' || c == '\n' || c == '\r'
}

/// Whether the reference, as the `url` crate reads it, starts with two slashes.
pub fn names_another_host(reference: &str) -> (r: bool)
    ensures
        r == is_network_path_reference(reference@),
{
    let ghost s = reference@;
    let n = reference.unicode_len();
    let mut i: usize = 0;
    assert(s.subrange(0, n as int) =~= s);
    while i < n && reference.get_char(i) <= ' '
        invariant
            i <= n == s.len(),
            s == reference@,
            trim_c0_start(s) == trim_c0_start(s.subrange(i as int, n as int)),
        decreases n - i,
    {
        assert(s.subrange(i as int, n as int).drop_first() =~= s.subrange(i + 1, n as int));
        i = i + 1;
    }
    assert(trim_c0_start(s) == s.subrange(i as int, n as int));
    let ghost chars = url_input_chars(s);
    // The first character that is read.
    let mut j = i;
    while j < n && is_tab_or_newline_at(reference, j)
        invariant
            i <= j <= n == s.len(),
            s == reference@,
            chars == skip_tab_and_newline(s.subrange(j as int, n as int)),
        decreases n - j,
    {
        proof {
            lemma_skip_tab_and_newline_step(s, j as int);
        }
        j = j + 1;
    }
    if j == n {
        assert(s.subrange(j as int, n as int) =~= Seq::<char>::empty());
        return false;
    }
    proof {
        lemma_skip_tab_and_newline_step(s, j as int);
    }
    let first = reference.get_char(j);
    if !(first == '/' || first == '\\') {
        return false;
    }
    let ghost rest = skip_tab_and_newline(s.subrange(j + 1, n as int));
    assert(chars == seq![first] + rest);
    // The second character that is read.
    let mut k = j + 1;
    while k < n && is_tab_or_newline_at(reference, k)
        invariant
            j < k <= n == s.len(),
            s == reference@,
            rest == skip_tab_and_newline(s.subrange(k as int, n as int)),
        decreases n - k,
    {
        proof {
            lemma_skip_tab_and_newline_step(s, k as int);
        }
        k = k + 1;
    }
    if k == n {
        assert(s.subrange(k as int, n as int) =~= Seq::<char>::empty());
        assert(chars.len() == 1);
        return false;
    }
    proof {
        lemma_skip_tab_and_newline_step(s, k as int);
    }
    let second = reference.get_char(k);
    assert(chars[1] == second);
    second == '/' || second == '\\'
}

/// The upstream URL of a request target, or the text of the refusal: targets
/// that name a host of their own are refused; every other target is resolved
/// against the base URL of the upstream service.
pub open spec fn upstream_url_of(upstream_base_url: Seq<char>, path_and_query: Option<&str>) -> Result<
    Seq<char>,
    Seq<char>,
> {
    let reference = request_reference(path_and_query);
    if is_network_path_reference(reference) {
        Err("request target names another host"@)
    } else {
        url_join(upstream_base_url, reference)
    }
}

/// The upstream URL of a request: a target that, as the `url` crate reads it,
/// starts with two slashes is refused, since it would name a host of its own;
/// any other path and query is resolved against the base URL of the upstream
/// service by `Url::join`.
pub fn build_upstream_url(upstream_base_url: &str, path_and_query: Option<&str>) -> (r: Result<
    String,
    ProxyError,
>)
    ensures
        match upstream_url_of(upstream_base_url@, path_and_query) {
            Ok(joined) => r matches Ok(url) && url@ == joined,
            Err(text) => r matches Err(ProxyError::InvalidUpstreamUrl(s)) && s@ == text,
        },
{
    let reference = match path_and_query {
        Some(p) => p,
        None => "/",
    };
    if names_another_host(reference) {
        return Err(
            ProxyError::InvalidUpstreamUrl(String::from_str("request target names another host")),
        );
    }
    match join_url(upstream_base_url, reference) {
        Ok(url) => Ok(url),
        Err(error) => Err(ProxyError::InvalidUpstreamUrl(error)),
    }
}

/// `filtered` holds the headers of `upstream` but the hop-by-hop ones, each with
/// its values in order.
pub open spec fn is_filtered_response(
    filtered: Seq<(Seq<u8>, Seq<u8>)>,
    upstream: Seq<(Seq<u8>, Seq<u8>)>,
) -> bool {
    forall|name: Seq<u8>|
        #[trigger] field_values(filtered, name) == if is_hop_by_hop(name) {
            Seq::<Seq<u8>>::empty()
        } else {
            field_values(upstream, name)
        }
}

/// The headers of an upstream response as they go back to the client: all but
/// the hop-by-hop headers, each with its values in order.
pub fn filter_response_headers(upstream_headers: &HeaderMap) -> (r: HeaderMap)
    requires
        header_entries(*upstream_headers).len() < MAX_HEADER_ENTRIES,
    ensures
        is_filtered_response(header_entries(r), header_entries(*upstream_headers)),
{
    let entries = header_map_entries(upstream_headers);
    let ghost all = entries.deep_view();
    let mut headers = new_header_map();
    let mut i: usize = 0;
    assert(all.take(0) =~= Seq::<(Seq<u8>, Seq<u8>)>::empty());
    while i < entries.len()
        invariant
            i <= entries@.len(),
            all == entries.deep_view(),
            all == header_entries(*upstream_headers),
            all.len() < MAX_HEADER_ENTRIES,
            header_entries(headers).len() <= i,
            forall|name: Seq<u8>|
                #[trigger] field_values(header_entries(headers), name) == if is_hop_by_hop(name) {
                    Seq::<Seq<u8>>::empty()
                } else {
                    field_values(all.take(i as int), name)
                },
        decreases entries@.len() - i,
    {
        let name = &entries[i].0;
        assert(all[i as int].0 == name@);
        if !is_hop_by_hop_header(name.as_slice()) {
            header_map_append_entry(&mut headers, upstream_headers, i);
        }
        proof {
            assert forall|n: Seq<u8>|
                #[trigger] field_values(header_entries(headers), n) == if is_hop_by_hop(n) {
                    Seq::<Seq<u8>>::empty()
                } else {
                    field_values(all.take(i + 1), n)
                } by {
                lemma_field_values_take_succ(all, i as int, n);
            }
        }
        i = i + 1;
    }
    proof {
        lemma_take_all(all);
    }
    headers
}

/// The filtered response headers, when the upstream headers leave the header
/// map room; `None` when they hold so many values that the map could not be
/// counted on to grow.
pub fn try_filter_response_headers(upstream_headers: &HeaderMap) -> (r: Option<HeaderMap>)
    ensures
        match r {
            None => header_entries(*upstream_headers).len() >= MAX_HEADER_ENTRIES,
            Some(filtered) => header_entries(*upstream_headers).len() < MAX_HEADER_ENTRIES
                && is_filtered_response(header_entries(filtered), header_entries(*upstream_headers)),
        },
{
    if header_map_len(upstream_headers) >= MAX_HEADER_ENTRIES {
        return None;
    }
    Some(filter_response_headers(upstream_headers))
}

} // verus!
