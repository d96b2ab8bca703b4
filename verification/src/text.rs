//! Byte-level text helpers for HTTP header names and values.
//!
//! Header names and values are handled as byte sequences. Literal names such as
//! `"content-length"` are written as string literals and compared through
//! [`ascii_bytes`], which reads each character as one byte.
use vstd::prelude::*;
use vstd::string::*;

verus! {

/// The bytes of a text whose characters are all ASCII, one byte per character.
pub open spec fn ascii_bytes(s: Seq<char>) -> Seq<u8> {
    Seq::new(s.len(), |i: int| s[i] as u8)
}

/// The characters of a byte sequence read as ASCII, one character per byte.
pub open spec fn ascii_chars(b: Seq<u8>) -> Seq<char> {
    Seq::new(b.len(), |i: int| b[i] as char)
}

/// Every byte is below 128.
pub open spec fn is_ascii_bytes(b: Seq<u8>) -> bool {
    forall|i: int| 0 <= i < b.len() ==> #[trigger] b[i] < 128
}

/// Every byte is visible ASCII (32 to 126) or a horizontal tab: the bytes that
/// `HeaderValue::to_str` of the `http` crate accepts.
pub open spec fn is_visible_ascii(b: Seq<u8>) -> bool {
    forall|i: int| 0 <= i < b.len() ==> is_visible_ascii_byte(#[trigger] b[i])
}

pub open spec fn is_visible_ascii_byte(b: u8) -> bool {
    (32 <= b && b < 127) || b == 9
}

/// ASCII white space as `str::trim` removes it: tab, line feed, vertical tab,
/// form feed, carriage return and space.
pub open spec fn is_space(b: u8) -> bool {
    b == 9 || b == 10 || b == 11 || b == 12 || b == 13 || b == 32
}

/// `u8::to_ascii_lowercase`: `A`..`Z` become `a`..`z`, every other byte stays.
pub open spec fn lower_byte(b: u8) -> u8 {
    if 65 <= b && b <= 90 {
        (b + 32) as u8
    } else {
        b
    }
}

pub open spec fn ascii_lowercase(t: Seq<u8>) -> Seq<u8> {
    Seq::new(t.len(), |i: int| lower_byte(t[i]))
}

/// `t` without its leading white space.
pub open spec fn trim_start(t: Seq<u8>) -> Seq<u8>
    decreases t.len(),
{
    if t.len() > 0 && is_space(t[0]) {
        trim_start(t.drop_first())
    } else {
        t
    }
}

/// `t` without its trailing white space.
pub open spec fn trim_end(t: Seq<u8>) -> Seq<u8>
    decreases t.len(),
{
    if t.len() > 0 && is_space(t.last()) {
        trim_end(t.drop_last())
    } else {
        t
    }
}

/// `t` without leading or trailing white space.
pub open spec fn trim(t: Seq<u8>) -> Seq<u8> {
    trim_end(trim_start(t))
}

/// `trim` keeps a contiguous part of its input.
pub proof fn lemma_trim_start_is_suffix(t: Seq<u8>)
    ensures
        exists|k: int| 0 <= k <= t.len() && trim_start(t) == t.subrange(k, t.len() as int),
    decreases t.len(),
{
    if t.len() > 0 && is_space(t[0]) {
        lemma_trim_start_is_suffix(t.drop_first());
        let k = choose|k: int|
            0 <= k <= t.drop_first().len() && trim_start(t.drop_first())
                == t.drop_first().subrange(k, t.drop_first().len() as int);
        assert(t.drop_first().subrange(k, t.drop_first().len() as int) =~= t.subrange(
            k + 1,
            t.len() as int,
        ));
    } else {
        assert(t.subrange(0, t.len() as int) =~= t);
    }
}

pub proof fn lemma_trim_end_is_prefix(t: Seq<u8>)
    ensures
        exists|k: int| 0 <= k <= t.len() && trim_end(t) == t.subrange(0, k),
    decreases t.len(),
{
    if t.len() > 0 && is_space(t.last()) {
        lemma_trim_end_is_prefix(t.drop_last());
        let k = choose|k: int|
            0 <= k <= t.drop_last().len() && trim_end(t.drop_last()) == t.drop_last().subrange(
                0,
                k,
            );
        assert(t.drop_last().subrange(0, k) =~= t.subrange(0, k));
    } else {
        assert(t.subrange(0, t.len() as int) =~= t);
    }
}

/// Trimming and lowering keep text ASCII.
pub proof fn lemma_trim_lower_ascii(t: Seq<u8>)
    requires
        is_ascii_bytes(t),
    ensures
        is_ascii_bytes(ascii_lowercase(trim(t))),
{
    lemma_trim_start_is_suffix(t);
    let s = trim_start(t);
    let k = choose|k: int| 0 <= k <= t.len() && s == t.subrange(k, t.len() as int);
    assert(is_ascii_bytes(s)) by {
        assert forall|i: int| 0 <= i < s.len() implies #[trigger] s[i] < 128 by {
            assert(s[i] == t[i + k]);
        }
    }
    lemma_trim_end_is_prefix(s);
    let e = trim_end(s);
    let m = choose|m: int| 0 <= m <= s.len() && e == s.subrange(0, m);
    assert(is_ascii_bytes(e)) by {
        assert forall|i: int| 0 <= i < e.len() implies #[trigger] e[i] < 128 by {
            assert(e[i] == s[i]);
        }
    }
    let l = ascii_lowercase(e);
    assert forall|i: int| 0 <= i < l.len() implies #[trigger] l[i] < 128 by {
        assert(l[i] == lower_byte(e[i]));
    }
}

/// A byte vector's deep view is its view.
pub broadcast proof fn lemma_bytes_deep_view(v: Vec<u8>)
    ensures
        #[trigger] v.deep_view() == v@,
{
    assert(v.deep_view() =~= v@);
}

/// Whether `t` spells the ASCII text `lit`.
pub fn bytes_eq_str(t: &[u8], lit: &str) -> (r: bool)
    ensures
        r == (t@ == ascii_bytes(lit@)),
{
    let n = lit.unicode_len();
    if t.len() != n {
        return false;
    }
    let mut i: usize = 0;
    while i < n
        invariant
            i <= n,
            t@.len() == n,
            lit@.len() == n,
            forall|j: int| 0 <= j < i ==> t@[j] == ascii_bytes(lit@)[j],
        decreases n - i,
    {
        if t[i] != (lit.get_char(i) as u8) {
            return false;
        }
        i = i + 1;
    }
    assert(t@ =~= ascii_bytes(lit@));
    true
}

/// The bytes of the ASCII text `lit`.
pub fn str_ascii_bytes(lit: &str) -> (r: Vec<u8>)
    ensures
        r@ == ascii_bytes(lit@),
{
    let n = lit.unicode_len();
    let mut r: Vec<u8> = Vec::new();
    let mut i: usize = 0;
    while i < n
        invariant
            i <= n,
            lit@.len() == n,
            r@ =~= ascii_bytes(lit@).take(i as int),
        decreases n - i,
    {
        r.push(lit.get_char(i) as u8);
        i = i + 1;
    }
    assert(ascii_bytes(lit@).take(n as int) =~= ascii_bytes(lit@));
    r
}

/// Whether every byte of `v` is visible ASCII or a tab.
pub fn check_visible_ascii(v: &[u8]) -> (r: bool)
    ensures
        r == is_visible_ascii(v@),
{
    let mut i: usize = 0;
    while i < v.len()
        invariant
            i <= v@.len(),
            forall|j: int| 0 <= j < i ==> is_visible_ascii_byte(#[trigger] v@[j]),
        decreases v@.len() - i,
    {
        let b = v[i];
        if !((32 <= b && b < 127) || b == 9) {
            assert(!is_visible_ascii_byte(v@[i as int]));
            return false;
        }
        i = i + 1;
    }
    true
}

pub fn is_space_byte(b: u8) -> (r: bool)
    ensures
        r == is_space(b),
{
    b == 9 || b == 10 || b == 11 || b == 12 || b == 13 || b == 32
}

/// A copy of `t[start..end]`.
pub fn copy_range(t: &[u8], start: usize, end: usize) -> (r: Vec<u8>)
    requires
        start <= end <= t@.len(),
    ensures
        r@ == t@.subrange(start as int, end as int),
{
    let mut r: Vec<u8> = Vec::new();
    let mut i = start;
    while i < end
        invariant
            start <= i <= end <= t@.len(),
            r@ =~= t@.subrange(start as int, i as int),
        decreases end - i,
    {
        r.push(t[i]);
        i = i + 1;
    }
    r
}

/// `t` with leading and trailing white space removed.
pub fn trim_bytes(t: &[u8]) -> (r: Vec<u8>)
    ensures
        r@ == trim(t@),
{
    let n = t.len();
    let mut s: usize = 0;
    assert(t@.subrange(0, n as int) =~= t@);
    while s < n && is_space_byte(t[s])
        invariant
            s <= n == t@.len(),
            trim_start(t@) == trim_start(t@.subrange(s as int, n as int)),
        decreases n - s,
    {
        assert(t@.subrange(s as int, n as int).drop_first() =~= t@.subrange(s + 1, n as int));
        s = s + 1;
    }
    assert(trim_start(t@) == t@.subrange(s as int, n as int));
    let mut e: usize = n;
    while e > s && is_space_byte(t[e - 1])
        invariant
            s <= e <= n == t@.len(),
            trim_start(t@) == t@.subrange(s as int, n as int),
            trim(t@) == trim_end(t@.subrange(s as int, e as int)),
        decreases e - s,
    {
        assert(t@.subrange(s as int, e as int).drop_last() =~= t@.subrange(s as int, e - 1));
        e = e - 1;
    }
    copy_range(t, s, e)
}

/// `t` with `A`..`Z` lowered.
pub fn lowercase_bytes(t: &[u8]) -> (r: Vec<u8>)
    ensures
        r@ == ascii_lowercase(t@),
{
    let mut r: Vec<u8> = Vec::new();
    let mut i: usize = 0;
    while i < t.len()
        invariant
            i <= t@.len(),
            r@.len() == i,
            forall|j: int| 0 <= j < i ==> #[trigger] r@[j] == lower_byte(t@[j]),
        decreases t@.len() - i,
    {
        let b = t[i];
        let l = if 65 <= b && b <= 90 {
            b + 32
        } else {
            b
        };
        r.push(l);
        i = i + 1;
    }
    assert(r@ =~= ascii_lowercase(t@));
    r
}

/// `String::from_utf8` of the standard library, on ASCII bytes: each byte
/// becomes the character with the same code.
#[verifier::external_body]
pub fn ascii_string(bytes: &[u8]) -> (r: String)
    requires
        is_ascii_bytes(bytes@),
    ensures
        r@ == ascii_chars(bytes@),
{
    match String::from_utf8(bytes.to_vec()) {
        Ok(s) => s,
        Err(_) => String::new(),
    }
}

} // verus!
