//! What the library has from other crates and from `std` beyond what `vstd`
//! specifies. Nothing here is proved: each contract is what the library relies
//! on.

use base64::Engine as _;
use vstd::prelude::*;

verus! {

/// `bytes::Bytes`, a cheaply shared run of bytes.
#[verifier::external_type_specification]
#[verifier::external_body]
pub struct ExBytes(bytes::Bytes);

/// The bytes that a `bytes::Bytes` holds.
pub uninterp spec fn bytes_content(bytes: bytes::Bytes) -> Seq<u8>;

/// `bytes::Bytes::copy_from_slice`: the result holds what the slice holds.
#[verifier::external_body]
pub(crate) fn copied_bytes(data: &[u8]) -> (bytes: bytes::Bytes)
    ensures
        bytes_content(bytes) == data@,
{
    bytes::Bytes::copy_from_slice(data)
}

/// `bytes::Bytes::from` of a vector: the result holds what the vector held.
#[verifier::external_body]
pub(crate) fn frozen_bytes(data: Vec<u8>) -> (bytes: bytes::Bytes)
    ensures
        bytes_content(bytes) == data@,
{
    bytes::Bytes::from(data)
}

/// `bytes::Bytes::as_ref`: the bytes as a slice.
#[verifier::external_body]
pub(crate) fn bytes_slice(bytes: &bytes::Bytes) -> (slice: &[u8])
    ensures
        slice@ == bytes_content(*bytes),
{
    bytes.as_ref()
}

/// The standard base64 text, with padding, of some bytes.
pub uninterp spec fn base64_text(bytes: Seq<u8>) -> Seq<char>;

/// What standard base64 text stands for, or what is wrong with it in words.
pub uninterp spec fn base64_content(text: Seq<char>) -> Result<Seq<u8>, Seq<char>>;

/// A decoding result, as contracts see it.
pub open spec fn decoded_view(decoded: Result<Vec<u8>, String>) -> Result<Seq<u8>, Seq<char>> {
    match decoded {
        Ok(bytes) => Ok(bytes@),
        Err(message) => Err(message@),
    }
}

/// Whether standard base64 text stands for those bytes.
pub open spec fn decodes_to(text: Seq<char>, bytes: Seq<u8>) -> bool {
    base64_content(text) == Ok::<Seq<u8>, Seq<char>>(bytes)
}

/// `base64::Engine::encode` of the engine `STANDARD`: a function of the bytes
/// whose result decodes to them again. It panics when its result would be too
/// long to allocate.
#[verifier::external_body]
pub(crate) fn base64_encode(bytes: &[u8]) -> (text: String)
    requires
        bytes@.len() / 3 * 4 + 4 <= isize::MAX,
    ensures
        text@ == base64_text(bytes@),
        decodes_to(text@, bytes@),
{
    base64::engine::general_purpose::STANDARD.encode(bytes)
}

/// `base64::Engine::decode` of the engine `STANDARD`: a function of the text;
/// an error is given by its words.
#[verifier::external_body]
pub(crate) fn base64_decode(text: &str) -> (decoded: Result<Vec<u8>, String>)
    ensures
        decoded_view(decoded) == base64_content(text@),
{
    base64::engine::general_purpose::STANDARD.decode(text).map_err(|err| err.to_string())
}

/// A member of the object that JSON text stands for. Nothing: the text is no
/// JSON. Nothing inside: it stands for no object, or one without that member.
/// Nothing inside that: the member is no string.
pub uninterp spec fn json_member(text: Seq<char>, key: Seq<char>) -> Option<
    Option<Option<Seq<char>>>,
>;

/// A member, as contracts see it.
pub open spec fn member_view(member: Option<Option<Option<String>>>) -> Option<
    Option<Option<Seq<char>>>,
> {
    match member {
        Some(Some(member)) => Some(Some(crate::text::optional_text(member))),
        Some(None) => Some(None),
        None => None,
    }
}

/// `serde_json::from_str` to a `serde_json::Value`, and its `get` and
/// `as_str`: a function of the text and the key.
#[verifier::external_body]
pub(crate) fn find_json_member(text: &str, key: &str) -> (member: Option<Option<Option<String>>>)
    ensures
        member_view(member) == json_member(text@, key@),
{
    let value = serde_json::from_str::<serde_json::Value>(text).ok()?;
    match value.get(key) {
        Some(member) => Some(Some(member.as_str().map(|text| text.to_owned()))),
        None => Some(None),
    }
}

/// Whether a character has the Unicode property White_Space.
pub open spec fn white_space(c: char) -> bool {
    ||| '\u{9}' <= c <= '\u{d}'
    ||| c == '\u{20}'
    ||| c == '\u{85}'
    ||| c == '\u{a0}'
    ||| c == '\u{1680}'
    ||| '\u{2000}' <= c <= '\u{200a}'
    ||| c == '\u{2028}'
    ||| c == '\u{2029}'
    ||| c == '\u{202f}'
    ||| c == '\u{205f}'
    ||| c == '\u{3000}'
}

/// A string without leading whitespace.
pub open spec fn trimmed_start(text: Seq<char>) -> Seq<char>
    decreases text.len(),
{
    if text.len() > 0 && white_space(text[0]) {
        trimmed_start(text.skip(1))
    } else {
        text
    }
}

/// A string without trailing whitespace.
pub open spec fn trimmed_end(text: Seq<char>) -> Seq<char>
    decreases text.len(),
{
    if text.len() > 0 && white_space(text.last()) {
        trimmed_end(text.drop_last())
    } else {
        text
    }
}

/// A string without leading and trailing whitespace.
pub open spec fn trimmed(text: Seq<char>) -> Seq<char> {
    trimmed_end(trimmed_start(text))
}

/// `str::trim`: the string without leading and trailing White_Space.
#[verifier::external_body]
pub(crate) fn trim_text(text: &str) -> (trimmed_text: &str)
    ensures
        trimmed_text@ == trimmed(text@),
{
    text.trim()
}

/// The text of bytes that are meant to be UTF-8, with replacement characters
/// where they are not.
pub uninterp spec fn lossy_text(bytes: Seq<u8>) -> Seq<char>;

/// `String::from_utf8_lossy`: a function of the bytes; valid UTF-8 comes out
/// as the text it encodes.
#[verifier::external_body]
pub(crate) fn decode_lossy(bytes: &[u8]) -> (text: String)
    ensures
        text@ == lossy_text(bytes@),
        vstd::utf8::valid_utf8(bytes@) ==> text@ == vstd::utf8::decode_utf8(bytes@),
{
    String::from_utf8_lossy(bytes).into_owned()
}

} // verus!
