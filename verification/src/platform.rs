//! What the library asks of the machine, of std and of helper crates: the
//! clock, random identifiers, and functions on text. Nothing in this file is
//! proved: each function makes its call, and its contract records what the
//! documentation or the source of the callee says of the answer.

use std::sync::Arc;
use vstd::prelude::*;

verus! {

/// Calls `Utc::now` and `DateTime::timestamp_millis`: the present time in
/// milliseconds since the Unix epoch.
#[verifier::external_body]
pub(crate) fn now_millis() -> i64 {
    chrono::Utc::now().timestamp_millis()
}

/// Calls `String::push`, which appends the character.
#[verifier::external_body]
pub(crate) fn push_char(text: &mut String, c: char)
    ensures
        final(text)@ == old(text)@.push(c),
{
    text.push(c);
}

/// Whether a character has the Unicode property `White_Space`.
pub uninterp spec fn white_space(c: char) -> bool;

/// Whether a character has the Unicode property `Alphabetic` or is of one of
/// the general categories `Nd`, `Nl` and `No`.
pub uninterp spec fn alphanumeric(c: char) -> bool;

/// Calls `char::is_whitespace`.
#[verifier::external_body]
pub(crate) fn is_white_space(c: char) -> (res: bool)
    ensures
        res == white_space(c),
{
    c.is_whitespace()
}

/// Calls `char::is_alphanumeric`.
#[verifier::external_body]
pub(crate) fn is_alphanumeric(c: char) -> (res: bool)
    ensures
        res == alphanumeric(c),
{
    c.is_alphanumeric()
}

/// A lower-case hexadecimal digit.
pub open spec fn lower_hex(c: char) -> bool {
    ('0' <= c && c <= '9') || ('a' <= c && c <= 'f')
}

/// Calls `Uuid::new_v4` and formats it with `simple`: 32 lower-case
/// hexadecimal digits, chosen at random but for the version and the variant.
#[verifier::external_body]
pub(crate) fn random_uuid_hex() -> (hex: String)
    ensures
        hex@.len() == 32,
        forall|i: int| 0 <= i < 32 ==> lower_hex(#[trigger] hex@[i]),
{
    uuid::Uuid::new_v4().simple().to_string()
}

/// What percent-decoding makes of a text: every `%` with two hexadecimal
/// digits behind it becomes the byte they spell, and the bytes are read as
/// UTF-8; `None` where they are not UTF-8.
pub uninterp spec fn percent_decoded(text: Seq<char>) -> Option<Seq<char>>;

/// Calls `urlencoding::decode`.
#[verifier::external_body]
pub(crate) fn percent_decode(text: &str) -> (decoded: Option<String>)
    ensures
        match decoded {
            Some(plain) => percent_decoded(text@) == Some(plain@),
            None => percent_decoded(text@) is None,
        },
{
    urlencoding::decode(text).ok().map(|plain| plain.into_owned())
}

/// The text that an optional string spells.
pub open spec fn option_text(text: Option<String>) -> Option<Seq<char>> {
    match text {
        Some(t) => Some(t@),
        None => None,
    }
}

/// What a JSON text holds under a member name: `None` where the text is not
/// JSON; else the string under that name, if the text is an object that
/// holds one there.
pub uninterp spec fn json_member(text: Seq<char>, member: Seq<char>) -> Option<Option<Seq<char>>>;

/// Calls `serde_json::from_str` for a `Value`, indexes it by the member
/// name, and calls `Value::as_str` on what it finds.
#[verifier::external_body]
pub(crate) fn json_string_member(text: &str, member: &str) -> (found: Option<Option<String>>)
    ensures
        match found {
            Some(value) => json_member(text@, member@) == Some(option_text(value)),
            None => json_member(text@, member@) is None,
        },
{
    let value = serde_json::from_str::<serde_json::Value>(text).ok()?;
    Some(value[member].as_str().map(String::from))
}

/// A number of bytes as people read it, with a unit.
pub uninterp spec fn human_size(bytes: u64) -> Seq<char>;

/// Calls `ByteSize::b` and formats the size with `to_string`.
#[verifier::external_body]
pub(crate) fn format_size(bytes: u64) -> (text: String)
    ensures
        text@ == human_size(bytes),
{
    bytesize::ByteSize::b(bytes).to_string()
}

/// A time in milliseconds since the Unix epoch as an RFC 3339 text in UTC;
/// `None` where the calendar of `chrono` does not reach that far.
pub uninterp spec fn rfc3339_text(millis: i64) -> Option<Seq<char>>;

/// Calls `DateTime::from_timestamp_millis` and `DateTime::to_rfc3339`.
#[verifier::external_body]
pub(crate) fn format_rfc3339(millis: i64) -> (text: Option<String>)
    ensures
        match text {
            Some(stamp) => rfc3339_text(millis) == Some(stamp@),
            None => rfc3339_text(millis) is None,
        },
{
    chrono::DateTime::from_timestamp_millis(millis).map(|time| time.to_rfc3339())
}

/// The media type that `mime_guess` files a file extension under, or
/// `application/octet-stream` where it knows none.
pub uninterp spec fn extension_mime(extension: Seq<char>) -> Seq<char>;

/// Calls `mime_guess::from_ext` and `MimeGuess::first_or_octet_stream`.
#[verifier::external_body]
pub(crate) fn mime_of_extension(extension: &str) -> (mime: String)
    ensures
        mime@ == extension_mime(extension@),
{
    mime_guess::from_ext(extension).first_or_octet_stream().to_string()
}

/// A text with every character replaced by its Unicode lower case.
pub uninterp spec fn lowercase(text: Seq<char>) -> Seq<char>;

/// Calls `str::to_lowercase`.
#[verifier::external_body]
pub(crate) fn to_lowercase(text: &str) -> (lower: String)
    ensures
        lower@ == lowercase(text@),
{
    text.to_lowercase()
}

/// Calls `Arc::try_unwrap`: the bytes themselves where nobody else holds
/// them, `None` where somebody does.
#[verifier::external_body]
pub(crate) fn take_unshared(bytes: Arc<Vec<u8>>) -> (owned: Option<Vec<u8>>)
    ensures
        owned matches Some(own) ==> own@ == bytes@,
{
    Arc::try_unwrap(bytes).ok()
}

} // verus!
