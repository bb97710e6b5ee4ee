//! HTTP header names, values and maps, as the `http` crate keeps them.
//!
//! A header map is seen as the sequence of its entries in the order in which it is walked: the
//! name of each, in lower case, and the bytes of its value. Entries of one name stand together.

use http::header::{HeaderMap, HeaderName, HeaderValue, InvalidHeaderName, InvalidHeaderValue};
use http::header::{MaxSizeReached, ToStrError};
use std::str::FromStr;
use vstd::prelude::*;
use vstd::utf8::*;

verus! {

/// One entry of a header map: its name and the bytes of its value.
pub type HeaderEntry = (Seq<char>, Seq<u8>);

#[verifier::external_type_specification]
#[verifier::external_body]
#[verifier::reject_recursive_types(T)]
pub struct ExHeaderMap<T>(HeaderMap<T>);

#[verifier::external_type_specification]
#[verifier::external_body]
pub struct ExHeaderName(HeaderName);

#[verifier::external_type_specification]
#[verifier::external_body]
pub struct ExHeaderValue(HeaderValue);

#[verifier::external_type_specification]
#[verifier::external_body]
pub struct ExInvalidHeaderName(InvalidHeaderName);

#[verifier::external_type_specification]
#[verifier::external_body]
pub struct ExInvalidHeaderValue(InvalidHeaderValue);

#[verifier::external_type_specification]
#[verifier::external_body]
pub struct ExToStrError(ToStrError);

#[verifier::external_type_specification]
#[verifier::external_body]
pub struct ExMaxSizeReached(MaxSizeReached);

/// The entries of a header map, in the order in which it is walked.
pub uninterp spec fn header_entries(map: HeaderMap<HeaderValue>) -> Seq<(Seq<char>, Seq<u8>)>;

/// The text of a header name.
pub uninterp spec fn header_name_text(name: HeaderName) -> Seq<char>;

/// The bytes of a header value.
pub uninterp spec fn header_value_bytes(value: HeaderValue) -> Seq<u8>;

/// `c` may stand in a header name.
pub open spec fn is_name_char(c: char) -> bool {
    ||| '0' <= c <= '9'
    ||| 'a' <= c <= 'z'
    ||| 'A' <= c <= 'Z'
    ||| c == '!' || c == '#' || c == '$' || c == '%' || c == '&' || c == '\''
    ||| c == '*' || c == '+' || c == '-' || c == '.' || c == '^' || c == '_'
    ||| c == '`' || c == '|' || c == '~'
}

/// `c` in lower case, if it is a letter of ASCII.
pub open spec fn lower_char(c: char) -> char {
    if 'A' <= c <= 'Z' {
        ((c as u32 + 32) as u32) as char
    } else {
        c
    }
}

/// `s` in lower case.
pub open spec fn lower(s: Seq<char>) -> Seq<char> {
    s.map_values(|c: char| lower_char(c))
}

/// `s` is the text of a header name.
pub open spec fn is_header_name(s: Seq<char>) -> bool {
    &&& 0 < s.len() <= 65535
    &&& forall|i: int| 0 <= i < s.len() ==> is_name_char(#[trigger] s[i])
}

/// `b` may stand in a header value: a tab, or anything from the space on but DEL.
pub open spec fn is_value_byte(b: u8) -> bool {
    b == 9 || 32 <= b && b != 127
}

/// `b` is visible ASCII, a space or a tab.
pub open spec fn is_visible_byte(b: u8) -> bool {
    b == 9 || 32 <= b < 127
}

/// The text `s` can be made a header value.
pub open spec fn is_header_value(s: Seq<char>) -> bool {
    forall|i: int| 0 <= i < encode_utf8(s).len() ==> is_value_byte(#[trigger] encode_utf8(s)[i])
}

/// The header value `bytes` can be read as text.
pub open spec fn is_header_text(bytes: Seq<u8>) -> bool {
    forall|i: int| 0 <= i < bytes.len() ==> is_visible_byte(#[trigger] bytes[i])
}

/// The text of a header value that can be read as text.
pub open spec fn header_text(bytes: Seq<u8>) -> Seq<char> {
    bytes.map_values(|b: u8| b as char)
}

/// The first entry of `entries` with this name, or their number if there is none.
pub open spec fn first_named(entries: Seq<HeaderEntry>, name: Seq<char>) -> nat
    decreases entries.len(),
{
    if entries.len() == 0 || entries[0].0 == name {
        0
    } else {
        1 + first_named(entries.skip(1), name)
    }
}

/// The test for entries of other names.
pub open spec fn not_named(name: Seq<char>) -> spec_fn(HeaderEntry) -> bool {
    |e: HeaderEntry| e.0 != name
}

/// `entries` with the one value `value` under `name`: at the place of the first entry of that
/// name, with all others of that name gone, or at the end if there was none.
pub open spec fn with_header(
    entries: Seq<HeaderEntry>,
    name: Seq<char>,
    value: Seq<u8>,
) -> Seq<HeaderEntry> {
    let at = first_named(entries, name) as int;
    if at == entries.len() {
        entries.push((name, value))
    } else {
        entries.take(at).push((name, value)) + entries.skip(at + 1).filter(
            not_named(name),
        )
    }
}

/// `s` holds characters of header names alone, and no capitals among them.
pub open spec fn is_plain(s: Seq<char>) -> bool {
    forall|i: int| 0 <= i < s.len() ==> is_name_char(#[trigger] s[i]) && lower_char(s[i]) == s[i]
}

/// `s` holds visible ASCII, spaces and tabs alone.
pub open spec fn is_visible_text(s: Seq<char>) -> bool {
    forall|i: int| 0 <= i < s.len() ==> (#[trigger] s[i] == '\t' || ' ' <= s[i] <= '~')
}

/// [`HeaderMap::new`]: a new map has no entries.
pub assume_specification[ HeaderMap::<HeaderValue>::new ]() -> (map: HeaderMap<HeaderValue>)
    ensures
        header_entries(map) == Seq::<HeaderEntry>::empty(),
;

/// [`HeaderName::as_str`]: the text of the name.
pub assume_specification[ HeaderName::as_str ](name: &HeaderName) -> (s: &str)
    ensures
        s@ == header_name_text(*name),
;

/// [`HeaderValue::to_str`]: the value as text, if it holds visible ASCII, spaces and tabs alone.
pub assume_specification[ HeaderValue::to_str ](value: &HeaderValue) -> (r: Result<
    &str,
    ToStrError,
>)
    ensures
        r is Ok <==> is_header_text(header_value_bytes(*value)),
        r matches Ok(s) ==> s@ == header_text(header_value_bytes(*value)),
;

/// [`HeaderValue::from_str`]: a value of the bytes of `s`, unless one of them is a control
/// character other than a tab.
pub assume_specification[ HeaderValue::from_str ](s: &str) -> (r: Result<
    HeaderValue,
    InvalidHeaderValue,
>)
    ensures
        r is Ok <==> is_header_value(s@),
        r matches Ok(v) ==> header_value_bytes(v) == encode_utf8(s@),
;

/// `HeaderName::from_str`: a name is made of the token characters of HTTP, at least one and at
/// most 65535 of them, and is kept in lower case.
#[verifier::external_body]
pub(crate) fn parse_header_name(s: &str) -> (r: Result<HeaderName, InvalidHeaderName>)
    ensures
        r is Ok <==> is_header_name(s@),
        r matches Ok(n) ==> header_name_text(n) == lower(s@),
{
    HeaderName::from_str(s)
}

/// [`HeaderMap::try_insert`]: puts the one value under the name. It fails only on a map that is
/// full, which no map with fewer than 6554 entries is; the map then stays as it was.
#[verifier::external_body]
pub(crate) fn try_insert_header(
    map: &mut HeaderMap<HeaderValue>,
    name: HeaderName,
    value: HeaderValue,
) -> (r: Result<Option<HeaderValue>, MaxSizeReached>)
    ensures
        r is Ok ==> header_entries(*final(map)) == with_header(
            header_entries(*old(map)),
            header_name_text(name),
            header_value_bytes(value),
        ),
        r is Err ==> header_entries(*final(map)) == header_entries(*old(map)) && header_entries(
            *old(map),
        ).len() >= 6554,
{
    map.try_insert(name, value)
}

/// [`HeaderMap::iter`]: the names and values of the entries, in order.
#[verifier::external_body]
pub(crate) fn header_pairs(map: &HeaderMap<HeaderValue>) -> (pairs: Vec<
    (&HeaderName, &HeaderValue),
>)
    ensures
        pairs@.len() == header_entries(*map).len(),
        forall|i: int|
            0 <= i < pairs@.len() ==> {
                &&& header_name_text(*(#[trigger] pairs@[i]).0) == header_entries(*map)[i].0
                &&& header_value_bytes(*pairs@[i].1) == header_entries(*map)[i].1
            },
{
    map.iter().collect()
}

/// The message of an [`InvalidHeaderName`].
#[verifier::external_body]
pub(crate) fn invalid_name_message(e: &InvalidHeaderName) -> (r: String)
    ensures
        r@ == "invalid HTTP header name"@,
{
    e.to_string()
}

/// The message of an [`InvalidHeaderValue`].
#[verifier::external_body]
pub(crate) fn invalid_value_message(e: &InvalidHeaderValue) -> (r: String)
    ensures
        r@ == "failed to parse header value"@,
{
    e.to_string()
}

/// The message of a [`ToStrError`].
#[verifier::external_body]
pub(crate) fn no_text_message(e: &ToStrError) -> (r: String)
    ensures
        r@ == "failed to convert header to a str"@,
{
    e.to_string()
}

/// The message of a [`MaxSizeReached`].
#[verifier::external_body]
pub(crate) fn map_full_message(e: &MaxSizeReached) -> (r: String)
    ensures
        r@ == "max size reached"@,
{
    e.to_string()
}

/// The first `n` characters of `s` are characters of header names and no capitals.
pub open spec fn plain_upto(s: Seq<char>, n: nat) -> bool
    decreases n,
{
    n == 0 || (is_name_char(s[n - 1]) && lower_char(s[n - 1]) == s[n - 1] && plain_upto(
        s,
        (n - 1) as nat,
    ))
}

/// A text all of whose characters are plain is plain.
pub(crate) proof fn lemma_plain_upto(s: Seq<char>, n: nat)
    requires
        plain_upto(s, n),
        n <= s.len(),
    ensures
        is_plain(s.take(n as int)),
        n == s.len() ==> is_plain(s),
    decreases n,
{
    if n > 0 {
        lemma_plain_upto(s, (n - 1) as nat);
        let before = s.take(n - 1);
        assert forall|i: int| 0 <= i < n implies is_name_char(#[trigger] s[i]) && lower_char(s[i])
            == s[i] by {
            if i < n - 1 {
                assert(before[i] == s[i]);
            }
        }
    }
}

/// A plain text that is neither empty nor too long is a header name, and is kept as it is.
pub(crate) proof fn lemma_plain_name(s: Seq<char>)
    requires
        is_plain(s),
        0 < s.len() <= 65535,
    ensures
        is_header_name(s),
        lower(s) == s,
{
    assert(lower(s) =~= s);
}

/// A name that no entry has comes after all entries.
pub(crate) proof fn lemma_new_name(entries: Seq<HeaderEntry>, name: Seq<char>, value: Seq<u8>)
    requires
        forall|i: int| 0 <= i < entries.len() ==> (#[trigger] entries[i]).0 != name,
    ensures
        with_header(entries, name, value) == entries.push((name, value)),
{
    lemma_not_named(entries, name);
}

/// A name that no entry has is found nowhere.
proof fn lemma_not_named(entries: Seq<HeaderEntry>, name: Seq<char>)
    requires
        forall|i: int| 0 <= i < entries.len() ==> (#[trigger] entries[i]).0 != name,
    ensures
        first_named(entries, name) == entries.len(),
    decreases entries.len(),
{
    if entries.len() > 0 {
        let rest = entries.skip(1);
        assert forall|i: int| 0 <= i < rest.len() implies (#[trigger] rest[i]).0 != name by {
            assert(rest[i] == entries[i + 1]);
        }
        lemma_not_named(rest, name);
    }
}

/// A text of visible ASCII is a header value, and is read back from it.
pub proof fn visible_text_reads_back(s: Seq<char>)
    requires
        is_visible_text(s),
    ensures
        is_header_value(s),
        is_header_text(encode_utf8(s)),
        header_text(encode_utf8(s)) == s,
{
    assert(is_ascii_chars(s));
    is_ascii_chars_encode_utf8(s);
    assert forall|i: int| 0 <= i < s.len() implies #[trigger] encode_utf8(s)[i] == s[i] as u8 by {}
    assert(header_text(encode_utf8(s)) =~= s);
}

/// Putting a value under a name adds one entry at most.
pub(crate) proof fn lemma_header_count(entries: Seq<HeaderEntry>, name: Seq<char>, value: Seq<u8>)
    ensures
        with_header(entries, name, value).len() <= entries.len() + 1,
{
    let at = first_named(entries, name) as int;
    lemma_first_named(entries, name);
    if at < entries.len() {
        entries.skip(at + 1).lemma_filter_len(not_named(name));
    }
}

/// The first entry of a name has that name, and no entry before it has.
pub(crate) proof fn lemma_first_named(entries: Seq<HeaderEntry>, name: Seq<char>)
    ensures
        first_named(entries, name) <= entries.len(),
        first_named(entries, name) < entries.len() ==> entries[first_named(
            entries,
            name,
        ) as int].0 == name,
        forall|i: int| 0 <= i < first_named(entries, name) ==> (#[trigger] entries[i]).0 != name,
    decreases entries.len(),
{
    if entries.len() > 0 && entries[0].0 != name {
        let rest = entries.skip(1);
        lemma_first_named(rest, name);
        assert forall|i: int| 0 <= i < first_named(entries, name) implies (
        #[trigger] entries[i]).0 != name by {
            if i > 0 {
                assert(rest[i - 1] == entries[i]);
            }
        }
    }
}

/// Where each name stands once, a new value takes the place of the old one.
pub(crate) proof fn lemma_header_replaces(
    entries: Seq<HeaderEntry>,
    name: Seq<char>,
    value: Seq<u8>,
)
    requires
        forall|i: int, j: int|
            0 <= i < j < entries.len() ==> (#[trigger] entries[i]).0 != (#[trigger] entries[j]).0,
        first_named(entries, name) < entries.len(),
    ensures
        with_header(entries, name, value) == entries.update(
            first_named(entries, name) as int,
            (name, value),
        ),
{
    lemma_first_named(entries, name);
    let at = first_named(entries, name) as int;
    let rest = entries.skip(at + 1);
    assert forall|i: int| 0 <= i < rest.len() implies (#[trigger] rest[i]).0 != name by {
        assert(rest[i] == entries[at + 1 + i]);
        assert(entries[at].0 != entries[at + 1 + i].0);
    }
    lemma_filter_keeps(rest, name);
    assert(with_header(entries, name, value) =~= entries.update(at, (name, value)));
}

/// Entries of other names are all kept.
proof fn lemma_filter_keeps(entries: Seq<HeaderEntry>, name: Seq<char>)
    requires
        forall|i: int| 0 <= i < entries.len() ==> (#[trigger] entries[i]).0 != name,
    ensures
        entries.filter(not_named(name)) == entries,
    decreases entries.len(),
{
    reveal(Seq::filter);
    if entries.len() > 0 {
        let before = entries.drop_last();
        assert forall|i: int| 0 <= i < before.len() implies (#[trigger] before[i]).0 != name by {
            assert(before[i] == entries[i]);
        }
        lemma_filter_keeps(before, name);
        assert(before.push(entries.last()) =~= entries);
    }
}

} // verus!
