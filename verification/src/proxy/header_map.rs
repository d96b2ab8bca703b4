//! The header collection of the `http` crate, as the proxy reads and fills it.
//!
//! A `HeaderMap` is seen through [`header_entries`]: the name/value pairs in the
//! order in which `HeaderMap::iter` yields them. That order is left open by the
//! `http` documentation across names, so every contract here speaks of it only
//! name by name, through [`field_values`]: the values stored under one name, in
//! the order in which they were added.
use axum::http::header::InvalidHeaderValue;
use axum::http::{HeaderMap, HeaderName, HeaderValue};
use vstd::prelude::*;

verus! {

#[verifier::external_type_specification]
#[verifier::external_body]
#[verifier::reject_recursive_types(T)]
pub struct ExHeaderMap<T>(HeaderMap<T>);

#[verifier::external_type_specification]
#[verifier::external_body]
pub struct ExHeaderValue(HeaderValue);

#[verifier::external_type_specification]
#[verifier::external_body]
pub struct ExInvalidHeaderValue(InvalidHeaderValue);

/// What `HeaderMap::iter` yields for `headers`: each name as the bytes of
/// `HeaderName::as_str`, each value as the bytes of `HeaderValue::as_bytes`.
pub uninterp spec fn header_entries(headers: HeaderMap) -> Seq<(Seq<u8>, Seq<u8>)>;

/// The values that `entries` holds under `name`, in order.
pub open spec fn field_values(entries: Seq<(Seq<u8>, Seq<u8>)>, name: Seq<u8>) -> Seq<Seq<u8>>
    decreases entries.len(),
{
    if entries.len() == 0 {
        Seq::empty()
    } else {
        let rest = field_values(entries.drop_last(), name);
        if entries.last().0 == name {
            rest.push(entries.last().1)
        } else {
            rest
        }
    }
}

/// A byte that a header name may hold once `http` has normalised it: a token
/// character of RFC 9110 with letters in lower case.
pub open spec fn is_name_byte(b: u8) -> bool {
    b == 33 || (35 <= b && b <= 39) || b == 42 || b == 43 || b == 45 || b == 46 || (48 <= b
        && b <= 57) || (94 <= b && b <= 122) || b == 124 || b == 126
}

/// A normalised header name: one to 65535 name bytes.
pub open spec fn is_header_name(name: Seq<u8>) -> bool {
    &&& 1 <= name.len() <= 65535
    &&& forall|i: int| 0 <= i < name.len() ==> is_name_byte(#[trigger] name[i])
}

/// A byte that `HeaderValue::from_bytes` accepts: a tab, or 32 to 255 but 127.
pub open spec fn is_value_byte(b: u8) -> bool {
    (b >= 32 && b != 127) || b == 9
}

/// A byte sequence that `HeaderValue::from_bytes` accepts.
pub open spec fn is_header_value(v: Seq<u8>) -> bool {
    forall|i: int| 0 <= i < v.len() ==> is_value_byte(#[trigger] v[i])
}

/// A bound on the pairs of a map that the proxy adds to. A `HeaderMap` panics
/// when it cannot grow its table; below 6553 distinct names it always can, and a
/// map of fewer pairs than this has fewer names.
pub const MAX_HEADER_ENTRIES: usize = 4096;

pub proof fn lemma_field_values_len(entries: Seq<(Seq<u8>, Seq<u8>)>, name: Seq<u8>)
    ensures
        field_values(entries, name).len() <= entries.len(),
    decreases entries.len(),
{
    if entries.len() > 0 {
        lemma_field_values_len(entries.drop_last(), name);
    }
}

/// Reading one more entry adds at most one value, under that entry's name.
pub proof fn lemma_field_values_take_succ(
    entries: Seq<(Seq<u8>, Seq<u8>)>,
    i: int,
    name: Seq<u8>,
)
    requires
        0 <= i < entries.len(),
    ensures
        field_values(entries.take(i + 1), name) == if entries[i].0 == name {
            field_values(entries.take(i), name).push(entries[i].1)
        } else {
            field_values(entries.take(i), name)
        },
{
    assert(entries.take(i + 1).drop_last() =~= entries.take(i));
}

pub proof fn lemma_take_all<A>(s: Seq<A>)
    ensures
        s.take(s.len() as int) == s,
{
    assert(s.take(s.len() as int) =~= s);
}

/// `HeaderMap::new`: a map without entries.
#[verifier::external_body]
pub(crate) fn new_header_map() -> (headers: HeaderMap)
    ensures
        header_entries(headers) == Seq::<(Seq<u8>, Seq<u8>)>::empty(),
{
    HeaderMap::new()
}

/// `HeaderMap::iter`: every name/value pair, in the order in which the map yields
/// them, copied out as bytes.
#[verifier::external_body]
pub(crate) fn header_map_entries(headers: &HeaderMap) -> (r: Vec<(Vec<u8>, Vec<u8>)>)
    ensures
        r.deep_view() == header_entries(*headers),
{
    headers.iter().map(|(name, value)| (name.as_str().as_bytes().to_vec(), value.as_bytes().to_vec())).collect()
}

/// `HeaderMap::len`: the number of values the map holds, which is the number of
/// pairs that `iter` yields.
#[verifier::external_body]
pub(crate) fn header_map_len(headers: &HeaderMap) -> (r: usize)
    ensures
        r == header_entries(*headers).len(),
{
    headers.len()
}

/// `HeaderMap::get_all`: the values under `name`, in the order in which they were
/// added, which is the order in which `iter` yields them.
#[verifier::external_body]
pub(crate) fn header_map_get_all(headers: &HeaderMap, name: &[u8]) -> (r: Vec<Vec<u8>>)
    requires
        is_header_name(name@),
    ensures
        r.deep_view() == field_values(header_entries(*headers), name@),
{
    match HeaderName::from_bytes(name) {
        Ok(key) => headers.get_all(&key).iter().map(|value| value.as_bytes().to_vec()).collect(),
        Err(_) => Vec::new(),
    }
}

/// `HeaderMap::get`: the first value under `name`, if there is one.
#[verifier::external_body]
pub(crate) fn header_map_get(headers: &HeaderMap, name: &[u8]) -> (r: Option<Vec<u8>>)
    requires
        is_header_name(name@),
    ensures
        ({
            let values = field_values(header_entries(*headers), name@);
            match r {
                Some(v) => values.len() > 0 && v@ == values[0],
                None => values.len() == 0,
            }
        }),
{
    match HeaderName::from_bytes(name) {
        Ok(key) => headers.get(&key).map(|value| value.as_bytes().to_vec()),
        Err(_) => None,
    }
}

/// `HeaderMap::contains_key`: whether some value is stored under `name`.
#[verifier::external_body]
pub(crate) fn header_map_contains_key(headers: &HeaderMap, name: &[u8]) -> (r: bool)
    requires
        is_header_name(name@),
    ensures
        r == (field_values(header_entries(*headers), name@).len() > 0),
{
    match HeaderName::from_bytes(name) {
        Ok(key) => headers.contains_key(&key),
        Err(_) => false,
    }
}

/// `HeaderMap::insert`: `value` becomes the only value under `name`; the values
/// under every other name stay as they were.
#[verifier::external_body]
pub(crate) fn header_map_insert(headers: &mut HeaderMap, name: &[u8], value: &[u8])
    requires
        is_header_name(name@),
        is_header_value(value@),
        header_entries(*old(headers)).len() < MAX_HEADER_ENTRIES,
    ensures
        forall|n: Seq<u8>|
            n != name@ ==> #[trigger] field_values(header_entries(*final(headers)), n)
                == field_values(header_entries(*old(headers)), n),
        field_values(header_entries(*final(headers)), name@) == seq![value@],
        header_entries(*final(headers)).len() + field_values(
            header_entries(*old(headers)),
            name@,
        ).len() == header_entries(*old(headers)).len() + 1,
{
    if let (Ok(key), Ok(value)) = (HeaderName::from_bytes(name), HeaderValue::from_bytes(value)) {
        headers.insert(key, value);
    }
}

/// `HeaderMap::append` of a clone of the `index`-th pair that `src` yields: the
/// value goes after the values already under its name. The clone keeps the
/// value's `is_sensitive` flag, which `header_entries` does not show, as a
/// response passed through keeps it.
#[verifier::external_body]
pub(crate) fn header_map_append_entry(dst: &mut HeaderMap, src: &HeaderMap, index: usize)
    requires
        index < header_entries(*src).len(),
        header_entries(*old(dst)).len() < MAX_HEADER_ENTRIES,
    ensures
        forall|n: Seq<u8>|
            #[trigger] field_values(header_entries(*final(dst)), n) == if n
                == header_entries(*src)[index as int].0 {
                field_values(header_entries(*old(dst)), n).push(
                    header_entries(*src)[index as int].1,
                )
            } else {
                field_values(header_entries(*old(dst)), n)
            },
        header_entries(*final(dst)).len() == header_entries(*old(dst)).len() + 1,
{
    if let Some((name, value)) = src.iter().nth(index) {
        dst.append(name.clone(), value.clone());
    }
}

/// `HeaderMap::append` under the name of the `index`-th pair that `src`
/// yields, of the value that `HeaderValue::from_bytes` builds from `value`: the
/// value goes after the values already under that name, and is not marked
/// sensitive.
#[verifier::external_body]
pub(crate) fn header_map_append_value(
    dst: &mut HeaderMap,
    src: &HeaderMap,
    index: usize,
    value: &[u8],
)
    requires
        index < header_entries(*src).len(),
        is_header_value(value@),
        header_entries(*old(dst)).len() < MAX_HEADER_ENTRIES,
    ensures
        forall|n: Seq<u8>|
            #[trigger] field_values(header_entries(*final(dst)), n) == if n
                == header_entries(*src)[index as int].0 {
                field_values(header_entries(*old(dst)), n).push(value@)
            } else {
                field_values(header_entries(*old(dst)), n)
            },
        header_entries(*final(dst)).len() == header_entries(*old(dst)).len() + 1,
{
    if let (Some((name, _)), Ok(value)) = (src.iter().nth(index), HeaderValue::from_bytes(value)) {
        dst.append(name.clone(), value);
    }
}

/// `HeaderValue::from_bytes`: accepts `src` exactly when every byte is a value
/// byte; the value then holds the bytes of `src`.
#[verifier::external_body]
pub(crate) fn header_value_from_bytes(src: &[u8]) -> (r: Result<Vec<u8>, InvalidHeaderValue>)
    ensures
        r is Ok <==> is_header_value(src@),
        r matches Ok(v) ==> v@ == src@,
{
    HeaderValue::from_bytes(src).map(|value| value.as_bytes().to_vec())
}

} // verus!
