//! What the agent has from the standard library and from the sha2 crate, with the contracts that
//! the rest of the library relies on.

use vstd::prelude::*;
use vstd::utf8::{decode_utf8, is_ascii_chars, valid_utf8};
use crate::text::{ascii_lower, ascii_upper, is_ascii_alphanumeric};

verus! {

/// `String::push` appends the given character to the end of the string.
pub assume_specification[ String::push ](string: &mut String, ch: char)
    ensures
        final(string)@ == old(string)@.push(ch),
;

/// What `char::is_alphanumeric` returns: whether a character is a letter or a number in Unicode.
pub uninterp spec fn unicode_alphanumeric(c: char) -> bool;

/// `char::is_alphanumeric` depends on the character alone. Of the ASCII characters exactly the
/// letters and digits are alphanumeric.
pub assume_specification[ char::is_alphanumeric ](c: char) -> (yes: bool)
    ensures
        yes == unicode_alphanumeric(c),
        (c as u32) < 128 ==> yes == is_ascii_alphanumeric(c),
;

/// What `str::to_lowercase` returns: the text in Unicode lower case.
pub uninterp spec fn unicode_lowercase(text: Seq<char>) -> Seq<char>;

/// Calls `str::to_lowercase`, whose result depends on the text alone. On ASCII text it maps each
/// capital letter to its small letter and keeps the rest.
#[verifier::external_body]
pub(crate) fn to_lowercase(text: &str) -> (lower: String)
    ensures
        lower@ == unicode_lowercase(text@),
        is_ascii_chars(text@) ==> lower@ == text@.map_values(|c: char| ascii_lower(c)),
{
    text.to_lowercase()
}

/// What `str::to_uppercase` returns: the text in Unicode upper case.
pub uninterp spec fn unicode_uppercase(text: Seq<char>) -> Seq<char>;

/// Calls `str::to_uppercase`, whose result depends on the text alone. On ASCII text it maps each
/// small letter to its capital letter and keeps the rest.
#[verifier::external_body]
pub(crate) fn to_uppercase(text: &str) -> (upper: String)
    ensures
        upper@ == unicode_uppercase(text@),
        is_ascii_chars(text@) ==> upper@ == text@.map_values(|c: char| ascii_upper(c)),
{
    text.to_uppercase()
}

/// What `String::from_utf8_lossy` returns: the text that the bytes hold, with a replacement
/// character for what is not UTF-8.
pub uninterp spec fn lossy_text(bytes: Seq<u8>) -> Seq<char>;

/// Calls `String::from_utf8_lossy`, whose result depends on the bytes alone. Bytes that are UTF-8
/// give the text that they encode.
#[verifier::external_body]
pub(crate) fn text_of_bytes(bytes: &[u8]) -> (text: String)
    ensures
        text@ == lossy_text(bytes@),
        valid_utf8(bytes@) ==> text@ == decode_utf8(bytes@),
{
    String::from_utf8_lossy(bytes).into_owned()
}

/// The SHA-512 digest of the bytes.
pub uninterp spec fn sha512(bytes: Seq<u8>) -> Seq<u8>;

/// Calls `sha2::Sha512::digest`: the digest depends on the bytes alone and has 64 bytes.
#[verifier::external_body]
pub(crate) fn sha512_digest(bytes: &[u8]) -> (digest: Vec<u8>)
    ensures
        digest@ == sha512(bytes@),
        digest@.len() == 64,
{
    <sha2::Sha512 as sha2::Digest>::digest(bytes).to_vec()
}

} // verus!
