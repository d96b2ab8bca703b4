//! The `Content-Encoding` of a request body, read from the request's headers.
//!
//! Every `Content-Encoding` value is split at commas; each piece is trimmed of
//! white space and lowered, and empty pieces are dropped. No token, or the one
//! token `identity`, means a plain body; the one token `gzip` or `br` means a
//! body to decode; anything else is refused.
use crate::proxy::error::ProxyError;
use crate::proxy::header_map::{
    field_values, header_entries, header_map_get_all, is_header_name, is_name_byte, lemma_take_all,
};
use crate::text::{
    ascii_bytes, ascii_chars, ascii_lowercase, ascii_string, bytes_eq_str, check_visible_ascii,
    is_ascii_bytes, is_visible_ascii, is_visible_ascii_byte, lemma_trim_lower_ascii, lowercase_bytes,
    lemma_bytes_deep_view, str_ascii_bytes, trim, trim_bytes,
};
use axum::http::HeaderMap;
use vstd::prelude::*;
use vstd::string::*;

verus! {

broadcast use lemma_bytes_deep_view;

#[derive(Copy, Clone, Debug, PartialEq, Eq, Structural)]
pub enum RequestContentEncoding {
    Identity,
    Gzip,
    Brotli,
}

impl RequestContentEncoding {
    /// The token that names the encoding.
    pub open spec fn label(self) -> Seq<char> {
        match self {
            RequestContentEncoding::Identity => "identity"@,
            RequestContentEncoding::Gzip => "gzip"@,
            RequestContentEncoding::Brotli => "br"@,
        }
    }

    /// The token that names the encoding.
    pub fn as_str(&self) -> (r: &'static str)
        ensures
            r@ == self.label(),
    {
        match self {
            RequestContentEncoding::Identity => "identity",
            RequestContentEncoding::Gzip => "gzip",
            RequestContentEncoding::Brotli => "br",
        }
    }
}

/// The pieces of `v` between commas, as `str::split(',')` gives them: one more
/// piece than there are commas.
pub open spec fn split_commas(v: Seq<u8>) -> Seq<Seq<u8>>
    decreases v.len(),
{
    if v.len() == 0 {
        seq![Seq::empty()]
    } else {
        let pieces = split_commas(v.drop_last());
        if v.last() == 44 {
            pieces.push(Seq::empty())
        } else {
            pieces.update(pieces.len() - 1, pieces.last().push(v.last()))
        }
    }
}

/// A piece as it is compared: trimmed and lowered.
pub open spec fn normalize_token(piece: Seq<u8>) -> Seq<u8> {
    ascii_lowercase(trim(piece))
}

/// The non-empty normalised pieces, in order.
pub open spec fn clean_pieces(pieces: Seq<Seq<u8>>) -> Seq<Seq<u8>>
    decreases pieces.len(),
{
    if pieces.len() == 0 {
        Seq::empty()
    } else {
        let rest = clean_pieces(pieces.drop_last());
        let token = normalize_token(pieces.last());
        if token.len() > 0 {
            rest.push(token)
        } else {
            rest
        }
    }
}

/// The tokens of one `Content-Encoding` value.
pub open spec fn value_tokens(v: Seq<u8>) -> Seq<Seq<u8>> {
    clean_pieces(split_commas(v))
}

/// The tokens of all `Content-Encoding` values, in order; `None` when some value
/// is not visible ASCII and so cannot be read as text.
pub open spec fn encoding_tokens(values: Seq<Seq<u8>>) -> Option<Seq<Seq<u8>>>
    decreases values.len(),
{
    if values.len() == 0 {
        Some(Seq::empty())
    } else {
        match encoding_tokens(values.drop_last()) {
            None => None,
            Some(tokens) => if is_visible_ascii(values.last()) {
                Some(tokens + value_tokens(values.last()))
            } else {
                None
            },
        }
    }
}

/// The tokens joined by `", "`.
pub open spec fn join_tokens(tokens: Seq<Seq<u8>>) -> Seq<u8>
    decreases tokens.len(),
{
    if tokens.len() == 0 {
        Seq::empty()
    } else if tokens.len() == 1 {
        tokens[0]
    } else {
        join_tokens(tokens.drop_last()) + seq![44u8, 32u8] + tokens.last()
    }
}

/// The encoding that a list of tokens names, or the tokens joined when it names
/// none that the proxy decodes.
pub open spec fn encoding_from_tokens(tokens: Seq<Seq<u8>>) -> Result<
    RequestContentEncoding,
    Seq<u8>,
> {
    if tokens.len() == 0 || (tokens.len() == 1 && tokens[0] == ascii_bytes("identity"@)) {
        Ok(RequestContentEncoding::Identity)
    } else if tokens.len() == 1 && tokens[0] == ascii_bytes("gzip"@) {
        Ok(RequestContentEncoding::Gzip)
    } else if tokens.len() == 1 && tokens[0] == ascii_bytes("br"@) {
        Ok(RequestContentEncoding::Brotli)
    } else {
        Err(join_tokens(tokens))
    }
}

/// What the proxy makes of the `Content-Encoding` values of a request: the
/// encoding, or the text of the refusal.
pub open spec fn content_encoding_of(values: Seq<Seq<u8>>) -> Result<
    RequestContentEncoding,
    Seq<char>,
> {
    match encoding_tokens(values) {
        None => Err("<non-utf8>"@),
        Some(tokens) => match encoding_from_tokens(tokens) {
            Ok(encoding) => Ok(encoding),
            Err(joined) => Err(ascii_chars(joined)),
        },
    }
}

pub open spec fn all_ascii(tokens: Seq<Seq<u8>>) -> bool {
    forall|i: int| 0 <= i < tokens.len() ==> is_ascii_bytes(#[trigger] tokens[i])
}

pub proof fn lemma_split_commas_nonempty(v: Seq<u8>)
    ensures
        split_commas(v).len() >= 1,
    decreases v.len(),
{
    if v.len() > 0 {
        lemma_split_commas_nonempty(v.drop_last());
    }
}

proof fn lemma_split_commas_ascii(v: Seq<u8>)
    requires
        is_ascii_bytes(v),
    ensures
        all_ascii(split_commas(v)),
    decreases v.len(),
{
    if v.len() > 0 {
        let w = v.drop_last();
        assert(is_ascii_bytes(w)) by {
            assert forall|i: int| 0 <= i < w.len() implies #[trigger] w[i] < 128 by {
                assert(w[i] == v[i]);
            }
        }
        lemma_split_commas_ascii(w);
        lemma_split_commas_nonempty(w);
        let pieces = split_commas(w);
        if v.last() != 44 {
            let last = pieces.last().push(v.last());
            assert(v.last() == v[v.len() - 1]);
            assert(is_ascii_bytes(last)) by {
                assert forall|i: int| 0 <= i < last.len() implies #[trigger] last[i] < 128 by {
                    if i < last.len() - 1 {
                        assert(last[i] == pieces.last()[i]);
                        assert(is_ascii_bytes(pieces[pieces.len() - 1]));
                    }
                }
            }
            let s = split_commas(v);
            assert forall|i: int| 0 <= i < s.len() implies is_ascii_bytes(#[trigger] s[i]) by {
                if i < s.len() - 1 {
                    assert(s[i] == pieces[i]);
                }
            }
        } else {
            let s = split_commas(v);
            assert forall|i: int| 0 <= i < s.len() implies is_ascii_bytes(#[trigger] s[i]) by {
                if i < s.len() - 1 {
                    assert(s[i] == pieces[i]);
                }
            }
        }
    }
}

proof fn lemma_clean_pieces_ascii(pieces: Seq<Seq<u8>>)
    requires
        all_ascii(pieces),
    ensures
        all_ascii(clean_pieces(pieces)),
    decreases pieces.len(),
{
    if pieces.len() > 0 {
        let w = pieces.drop_last();
        assert(all_ascii(w)) by {
            assert forall|i: int| 0 <= i < w.len() implies is_ascii_bytes(#[trigger] w[i]) by {
                assert(w[i] == pieces[i]);
            }
        }
        lemma_clean_pieces_ascii(w);
        assert(is_ascii_bytes(pieces[pieces.len() - 1]));
        lemma_trim_lower_ascii(pieces.last());
        let c = clean_pieces(pieces);
        let r = clean_pieces(w);
        assert forall|i: int| 0 <= i < c.len() implies is_ascii_bytes(#[trigger] c[i]) by {
            if i < r.len() {
                assert(c[i] == r[i]);
            }
        }
    }
}

/// The tokens of a readable value are ASCII.
pub proof fn lemma_value_tokens_ascii(v: Seq<u8>)
    requires
        is_visible_ascii(v),
    ensures
        all_ascii(value_tokens(v)),
{
    assert(is_ascii_bytes(v)) by {
        assert forall|i: int| 0 <= i < v.len() implies #[trigger] v[i] < 128 by {
            assert(is_visible_ascii_byte(v[i]));
        }
    }
    lemma_split_commas_ascii(v);
    lemma_clean_pieces_ascii(split_commas(v));
}

proof fn lemma_encoding_tokens_ascii(values: Seq<Seq<u8>>)
    ensures
        encoding_tokens(values) matches Some(tokens) ==> all_ascii(tokens),
    decreases values.len(),
{
    if values.len() > 0 {
        lemma_encoding_tokens_ascii(values.drop_last());
        if let Some(tokens) = encoding_tokens(values) {
            let prefix = encoding_tokens(values.drop_last()).unwrap();
            lemma_value_tokens_ascii(values.last());
            let more = value_tokens(values.last());
            assert forall|i: int| 0 <= i < tokens.len() implies is_ascii_bytes(
                #[trigger] tokens[i],
            ) by {
                if i < prefix.len() {
                    assert(tokens[i] == prefix[i]);
                } else {
                    assert(tokens[i] == more[i - prefix.len()]);
                }
            }
        }
    }
}

proof fn lemma_join_tokens_ascii(tokens: Seq<Seq<u8>>)
    requires
        all_ascii(tokens),
    ensures
        is_ascii_bytes(join_tokens(tokens)),
    decreases tokens.len(),
{
    if tokens.len() > 1 {
        let w = tokens.drop_last();
        assert(all_ascii(w)) by {
            assert forall|i: int| 0 <= i < w.len() implies is_ascii_bytes(#[trigger] w[i]) by {
                assert(w[i] == tokens[i]);
            }
        }
        lemma_join_tokens_ascii(w);
        let a = join_tokens(w);
        let b = seq![44u8, 32u8];
        let c = tokens.last();
        assert(is_ascii_bytes(tokens[tokens.len() - 1]));
        let j = join_tokens(tokens);
        assert(j == a + b + c);
        assert forall|i: int| 0 <= i < j.len() implies #[trigger] j[i] < 128 by {
            if i < a.len() {
                assert(j[i] == a[i]);
            } else if i < a.len() + 2 {
                assert(j[i] == b[i - a.len()]);
            } else {
                assert(j[i] == c[i - a.len() - 2]);
            }
        }
    } else if tokens.len() == 1 {
        assert(is_ascii_bytes(tokens[0]));
    }
}

/// A prefix of values that cannot be read makes the whole list unreadable.
proof fn lemma_encoding_tokens_none_prefix(values: Seq<Seq<u8>>, k: int)
    requires
        0 <= k <= values.len(),
        encoding_tokens(values.take(k)) is None,
    ensures
        encoding_tokens(values) is None,
    decreases values.len(),
{
    if k < values.len() {
        assert(values.drop_last().take(k) =~= values.take(k));
        lemma_encoding_tokens_none_prefix(values.drop_last(), k);
    } else {
        assert(values.take(k) =~= values);
    }
}

/// The normalised form of one piece.
fn normalize_piece(piece: &[u8]) -> (r: Vec<u8>)
    ensures
        r@ == normalize_token(piece@),
{
    let trimmed = trim_bytes(piece);
    lowercase_bytes(trimmed.as_slice())
}

/// The tokens of one `Content-Encoding` value.
pub fn parse_value_tokens(v: &[u8]) -> (r: Vec<Vec<u8>>)
    ensures
        r.deep_view() == value_tokens(v@),
{
    let mut out: Vec<Vec<u8>> = Vec::new();
    let mut current: Vec<u8> = Vec::new();
    let mut i: usize = 0;
    assert(v@.take(0) =~= Seq::<u8>::empty());
    while i < v.len()
        invariant
            i <= v@.len(),
            split_commas(v@.take(i as int)).len() >= 1,
            out.deep_view() == clean_pieces(split_commas(v@.take(i as int)).drop_last()),
            current@ == split_commas(v@.take(i as int)).last(),
        decreases v@.len() - i,
    {
        let ghost before = split_commas(v@.take(i as int));
        assert(v@.take(i + 1).drop_last() =~= v@.take(i as int));
        assert(v@.take(i + 1).last() == v@[i as int]);
        let b = v[i];
        if b == 44 {
            let token = normalize_piece(current.as_slice());
            let ghost old_out = out.deep_view();
            if token.len() > 0 {
                out.push(token);
                assert(out.deep_view() =~= old_out.push(normalize_token(before.last())));
            }
            current = Vec::new();
            proof {
                let after = split_commas(v@.take(i + 1));
                assert(after == before.push(Seq::empty()));
                assert(after.drop_last() =~= before);
                assert(clean_pieces(before) == if normalize_token(before.last()).len() > 0 {
                    clean_pieces(before.drop_last()).push(normalize_token(before.last()))
                } else {
                    clean_pieces(before.drop_last())
                });
                assert(current@ =~= after.last());
            }
        } else {
            current.push(b);
            proof {
                let after = split_commas(v@.take(i + 1));
                assert(after == before.update(before.len() - 1, before.last().push(b)));
                assert(after.drop_last() =~= before.drop_last());
                assert(current@ =~= after.last());
            }
        }
        i = i + 1;
    }
    proof {
        lemma_take_all(v@);
    }
    let ghost pieces = split_commas(v@);
    let token = normalize_piece(current.as_slice());
    let ghost old_out = out.deep_view();
    if token.len() > 0 {
        out.push(token);
        assert(out.deep_view() =~= old_out.push(normalize_token(pieces.last())));
    }
    out
}

/// The tokens joined by `", "`.
fn join_token_bytes(tokens: &Vec<Vec<u8>>) -> (r: Vec<u8>)
    ensures
        r@ == join_tokens(tokens.deep_view()),
{
    let mut r: Vec<u8> = Vec::new();
    let mut i: usize = 0;
    let ghost ts = tokens.deep_view();
    while i < tokens.len()
        invariant
            i <= tokens@.len(),
            ts == tokens.deep_view(),
            r@ == join_tokens(ts.take(i as int)),
        decreases tokens@.len() - i,
    {
        let ghost old_r = r@;
        assert(ts.take(i + 1).drop_last() =~= ts.take(i as int));
        assert(ts[i as int] == tokens@[i as int]@);
        if i > 0 {
            r.push(44u8);
            r.push(32u8);
        }
        let token = &tokens[i];
        let mut j: usize = 0;
        let ghost mid = r@;
        while j < token.len()
            invariant
                j <= token@.len(),
                r@ =~= mid + token@.take(j as int),
            decreases token@.len() - j,
        {
            r.push(token[j]);
            j = j + 1;
        }
        proof {
            lemma_take_all(token@);
            if i == 0 {
                assert(ts.take(1) =~= seq![ts[0]]);
                assert(r@ =~= join_tokens(ts.take(1)));
            } else {
                assert(mid =~= old_r + seq![44u8, 32u8]);
                assert(ts.take(i + 1).last() == ts[i as int]);
            }
        }
        i = i + 1;
    }
    proof {
        lemma_take_all(ts);
    }
    r
}

/// What the proxy makes of the `Content-Encoding` headers of a request: the
/// encoding of its body, or a refusal naming the tokens it found (or
/// `<non-utf8>` when a value cannot be read as text).
pub fn parse_request_content_encoding(headers: &HeaderMap) -> (r: Result<
    RequestContentEncoding,
    ProxyError,
>)
    ensures
        ({
            let values = field_values(
                header_entries(*headers),
                ascii_bytes("content-encoding"@),
            );
            match content_encoding_of(values) {
                Ok(encoding) => r == Ok::<RequestContentEncoding, ProxyError>(encoding),
                Err(text) => r matches Err(ProxyError::UnsupportedContentEncoding(s)) && s@
                    == text,
            }
        }),
{
    let name = str_ascii_bytes("content-encoding");
    proof {
        lemma_content_encoding_is_header_name();
    }
    let values = header_map_get_all(headers, name.as_slice());
    let ghost vals = values.deep_view();
    let mut tokens: Vec<Vec<u8>> = Vec::new();
    let mut i: usize = 0;
    assert(vals.take(0) =~= Seq::<Seq<u8>>::empty());
    while i < values.len()
        invariant
            i <= values@.len(),
            vals == values.deep_view(),
            vals == field_values(header_entries(*headers), ascii_bytes("content-encoding"@)),
            encoding_tokens(vals.take(i as int)) == Some(tokens.deep_view()),
        decreases values@.len() - i,
    {
        assert(vals.take(i + 1).drop_last() =~= vals.take(i as int));
        assert(vals.take(i + 1).last() == values@[i as int]@);
        let value = &values[i];
        if !check_visible_ascii(value.as_slice()) {
            proof {
                assert(value@ == values@[i as int]@);
                assert(!is_visible_ascii(vals.take(i + 1).last()));
                assert(encoding_tokens(vals.take(i + 1)) is None);
                lemma_encoding_tokens_none_prefix(vals, i + 1);
            }
            return Err(ProxyError::UnsupportedContentEncoding(String::from_str("<non-utf8>")));
        }
        let mut more = parse_value_tokens(value.as_slice());
        let ghost old_tokens = tokens.deep_view();
        let ghost more_tokens = more.deep_view();
        tokens.append(&mut more);
        assert(tokens.deep_view() =~= old_tokens + more_tokens);
        i = i + 1;
    }
    proof {
        lemma_take_all(vals);
    }
    if tokens.len() == 0 || (tokens.len() == 1 && bytes_eq_str(tokens[0].as_slice(), "identity")) {
        Ok(RequestContentEncoding::Identity)
    } else if tokens.len() == 1 && bytes_eq_str(tokens[0].as_slice(), "gzip") {
        Ok(RequestContentEncoding::Gzip)
    } else if tokens.len() == 1 && bytes_eq_str(tokens[0].as_slice(), "br") {
        Ok(RequestContentEncoding::Brotli)
    } else {
        let joined = join_token_bytes(&tokens);
        proof {
            lemma_encoding_tokens_ascii(vals);
            lemma_join_tokens_ascii(tokens.deep_view());
        }
        Err(ProxyError::UnsupportedContentEncoding(ascii_string(joined.as_slice())))
    }
}

/// `content-encoding` is a header name.
pub proof fn lemma_content_encoding_is_header_name()
    ensures
        is_header_name(ascii_bytes("content-encoding"@)),
{
    reveal_strlit("content-encoding");
    let n = ascii_bytes("content-encoding"@);
    assert forall|i: int| 0 <= i < n.len() implies is_name_byte(#[trigger] n[i]) by {
        assert(n[i] == "content-encoding"@[i] as u8);
    }
}

} // verus!
