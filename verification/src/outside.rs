//! What the library has from `uuid`, `url`, `time` and `serde_json`, as
//! plain values.

use vstd::prelude::*;

use crate::text;

verus! {

// ---------------------------------------------------------------------
// uuid
// ---------------------------------------------------------------------

/// A hexadecimal digit, in lower case.
pub open spec fn hex_digit(n: int) -> char {
    if n < 10 {
        ('0' as int + n) as char
    } else {
        ('a' as int + n - 10) as char
    }
}

/// How many hyphens stand before place `i` of a hyphenated id.
pub open spec fn hyphens_before(i: int) -> int {
    if i <= 8 {
        0
    } else if i <= 13 {
        1
    } else if i <= 18 {
        2
    } else if i <= 23 {
        3
    } else {
        4
    }
}

/// An id in its hyphenated form: thirty-two lower-case hexadecimal digits,
/// most significant first, in groups of 8, 4, 4, 4 and 12.
pub open spec fn hyphenated(id: u128) -> Seq<char> {
    Seq::new(
        36,
        |i: int|
            if i == 8 || i == 13 || i == 18 || i == 23 {
                '-'
            } else {
                hex_digit(
                    (id as int / vstd::arithmetic::power::pow(
                        16,
                        (31 - (i - hyphens_before(i))) as nat,
                    )) % 16,
                )
            },
    )
}

/// What `uuid::Uuid::parse_str` makes of a text: an id, or the sentence of
/// its error.
pub uninterp spec fn uuid_read(s: Seq<char>) -> Result<u128, Seq<char>>;

/// The id a text spells, if it spells one.
pub open spec fn uuid_of(s: Seq<char>) -> Option<u128> {
    match uuid_read(s) {
        Ok(id) => Some(id),
        Err(_) => None,
    }
}

/// A result with its error as text.
pub open spec fn read_view<T>(r: Result<T, String>) -> Result<T, Seq<char>> {
    match r {
        Ok(v) => Ok(v),
        Err(e) => Err(e@),
    }
}

/// `uuid::Uuid::to_string`: the hyphenated form, which
/// `uuid::Uuid::parse_str` reads back.
#[verifier::external_body]
pub(crate) fn format_uuid(id: u128) -> (r: String)
    ensures
        r@ == hyphenated(id),
        uuid_of(r@) == Some(id),
{
    uuid::Uuid::from_u128(id).to_string()
}

/// `uuid::Uuid::parse_str`: the simple, hyphenated, braced and URN forms are
/// ids; an error is kept as its own sentence.
#[verifier::external_body]
pub(crate) fn parse_uuid(s: &str) -> (r: Result<u128, String>)
    ensures
        read_view(r) == uuid_read(s@),
{
    match uuid::Uuid::parse_str(s) {
        Ok(id) => Ok(id.as_u128()),
        Err(e) => Err(e.to_string()),
    }
}

// ---------------------------------------------------------------------
// url
// ---------------------------------------------------------------------

/// What `url::Url::parse` makes of a text: the address as it serialises it,
/// or the sentence of its error.
pub uninterp spec fn url_read(s: Seq<char>) -> Result<Seq<char>, Seq<char>>;

/// A result with both sides as text.
pub open spec fn texts_view(r: Result<String, String>) -> Result<Seq<char>, Seq<char>> {
    match r {
        Ok(v) => Ok(v@),
        Err(e) => Err(e@),
    }
}

/// `url::Url::parse`: an absolute address, handed back as
/// `url::Url::as_str` spells it; an error is kept as its own sentence.
#[verifier::external_body]
pub(crate) fn parse_url(s: &str) -> (r: Result<String, String>)
    ensures
        texts_view(r) == url_read(s@),
{
    match url::Url::parse(s) {
        Ok(u) => Ok(u.as_str().to_owned()),
        Err(e) => Err(e.to_string()),
    }
}

// ---------------------------------------------------------------------
// time
// ---------------------------------------------------------------------

/// The Unix seconds a timestamp can have: the years -9999 to 9999.
pub open spec fn is_timestamp(secs: i64) -> bool {
    -377_705_116_800 <= secs <= 253_402_300_799
}

/// What is said of a second no timestamp can have.
pub open spec fn timestamp_fault() -> Seq<char> {
    "timestamp was not in range"@
}

/// `time::OffsetDateTime::from_unix_timestamp`: a moment for every second of
/// the years -9999 to 9999, and an error outside them, whose sentence names
/// the timestamp.
#[verifier::external_body]
pub(crate) fn check_timestamp(secs: i64) -> (r: Result<i64, String>)
    ensures
        match r {
            Ok(t) => is_timestamp(secs) && t == secs,
            Err(e) => !is_timestamp(secs) && e@ == timestamp_fault(),
        },
{
    match time::OffsetDateTime::from_unix_timestamp(secs) {
        Ok(t) => Ok(t.unix_timestamp()),
        Err(e) => Err(e.to_string()),
    }
}

// ---------------------------------------------------------------------
// serde_json
// ---------------------------------------------------------------------

/// The elements of a text that is a JSON array, each as JSON text.
pub uninterp spec fn elements_of(s: Seq<char>) -> Option<Seq<Seq<char>>>;

/// The member of a text that is a JSON object, as JSON text.
pub uninterp spec fn member_of(s: Seq<char>, key: Seq<char>) -> Option<Seq<char>>;

/// The string a text spells, when it is a JSON string.
pub uninterp spec fn string_in(s: Seq<char>) -> Option<Seq<char>>;

/// The strings of a text that is a JSON array of strings.
pub uninterp spec fn strings_in(s: Seq<char>) -> Option<Seq<Seq<char>>>;

pub open spec fn list_view(v: Option<Vec<String>>) -> Option<Seq<Seq<char>>> {
    match v {
        Some(l) => Some(text::views(l@)),
        None => None,
    }
}

/// `serde_json::from_str` and `serde_json::Value::as_array`: the elements of
/// an array, each written back as JSON; `None` for a text that is no JSON or
/// no array.
#[verifier::external_body]
pub(crate) fn json_elements(s: &str) -> (r: Option<Vec<String>>)
    ensures
        list_view(r) == elements_of(s@),
{
    let value: serde_json::Value = serde_json::from_str(s).ok()?;
    Some(value.as_array()?.iter().map(|v| v.to_string()).collect())
}

/// `serde_json::from_str` and `serde_json::Value::get`: a member of an
/// object, written back as JSON; `None` for a text that is no object or has
/// no such member.
#[verifier::external_body]
pub(crate) fn json_member(s: &str, key: &str) -> (r: Option<String>)
    ensures
        text::opt_view(r) == member_of(s@, key@),
{
    let value: serde_json::Value = serde_json::from_str(s).ok()?;
    Some(value.get(key)?.to_string())
}

/// `serde_json::from_str` and `serde_json::Value::as_str`: the string of a
/// JSON string; `None` for any other text.
#[verifier::external_body]
pub(crate) fn json_string(s: &str) -> (r: Option<String>)
    ensures
        text::opt_view(r) == string_in(s@),
{
    let value: serde_json::Value = serde_json::from_str(s).ok()?;
    Some(value.as_str()?.to_string())
}

/// `serde_json::from_str` of a list of strings; `None` for a text that is
/// anything else.
#[verifier::external_body]
pub(crate) fn json_strings(s: &str) -> (r: Option<Vec<String>>)
    ensures
        list_view(r) == strings_in(s@),
{
    serde_json::from_str(s).ok()
}

/// `serde_json::to_string` of a list of strings: a JSON array that
/// `serde_json::from_str` reads back. Writing strings does not fail.
#[verifier::external_body]
pub(crate) fn json_of_strings(v: &Vec<String>) -> (r: Result<String, String>)
    ensures
        r is Ok,
        strings_in(r->Ok_0@) == Some(text::views(v@)),
{
    serde_json::to_string(v).map_err(|e| e.to_string())
}

} // verus!
