//! Text and bytes: UTF-8 as `vstd::utf8` defines it, and the calls into the
//! standard library that turn bytes into text.

use vstd::prelude::*;
use vstd::string::StringSliceAdditionalSpecFns;
use vstd::utf8::{
    decode_utf8, decode_utf8_encode_utf8, encode_utf8, encode_utf8_decode_utf8,
    encode_utf8_valid_utf8, is_ascii_chars, is_ascii_chars_encode_utf8, valid_utf8,
};

verus! {

/// The text that lossy UTF-8 decoding makes of `bytes`: well-formed input
/// decoded as it is, each malformed sequence replaced by U+FFFD.
pub uninterp spec fn utf8_lossy(bytes: Seq<u8>) -> Seq<char>;

/// `String::from_utf8_lossy`, taken as an owned `String`.
///
/// The result is a function of the bytes alone, named [`utf8_lossy`]. The
/// standard library documents that valid UTF-8 comes back unchanged and that
/// every invalid sequence is replaced by U+FFFD, so an invalid input gives a
/// text that holds that character.
#[verifier::external_body]
pub(crate) fn from_utf8_lossy(bytes: &[u8]) -> (text: String)
    ensures
        text@ == utf8_lossy(bytes@),
        valid_utf8(bytes@) ==> text@ == decode_utf8(bytes@),
        !valid_utf8(bytes@) ==> text@.contains('\u{FFFD}'),
{
    String::from_utf8_lossy(bytes).into_owned()
}

/// `core::str::from_utf8`, with its error dropped.
///
/// That function succeeds exactly on valid UTF-8, and the string slice it
/// returns is made of the very bytes it was given.
#[verifier::external_body]
pub(crate) fn str_from_utf8(bytes: &[u8]) -> (res: Option<&str>)
    ensures
        res is Some <==> valid_utf8(bytes@),
        res is Some ==> res->0.spec_bytes() == bytes@,
{
    core::str::from_utf8(bytes).ok()
}

/// The text whose characters have the codes in `bytes`, one character for
/// each byte. For bytes below 128 this is the text that `bytes` encodes.
pub open spec fn ascii_text(bytes: Seq<u8>) -> Seq<char> {
    Seq::new(bytes.len(), |i: int| bytes[i] as char)
}

/// Every byte is below 128.
pub open spec fn is_ascii_bytes(bytes: Seq<u8>) -> bool {
    forall|i: int| 0 <= i < bytes.len() ==> #[trigger] bytes[i] < 128
}

/// ASCII bytes are valid UTF-8 and encode the text that has one character
/// for each byte.
pub proof fn lemma_ascii_bytes_are_text(bytes: Seq<u8>)
    requires
        is_ascii_bytes(bytes),
    ensures
        valid_utf8(bytes),
        decode_utf8(bytes) == ascii_text(bytes),
        encode_utf8(ascii_text(bytes)) == bytes,
        is_ascii_chars(ascii_text(bytes)),
{
    let chars = ascii_text(bytes);
    assert forall|i: int| 0 <= i < chars.len() implies '\0' <= #[trigger] chars[i] <= '\u{7f}' by {
        assert(bytes[i] < 128);
    }
    is_ascii_chars_encode_utf8(chars);
    assert(encode_utf8(chars) =~= bytes) by {
        assert forall|i: int| 0 <= i < bytes.len() implies encode_utf8(chars)[i] == bytes[i] by {
            assert(chars[i] as u8 == encode_utf8(chars)[i]);
            assert(bytes[i] < 128);
        }
    }
    encode_utf8_valid_utf8(chars);
    encode_utf8_decode_utf8(chars);
}

/// The text of a byte string: its UTF-8 decoding where the bytes are valid
/// UTF-8, else what lossy decoding makes of them.
pub open spec fn text_of(bytes: Seq<u8>) -> Seq<char> {
    if valid_utf8(bytes) {
        decode_utf8(bytes)
    } else {
        utf8_lossy(bytes)
    }
}

/// Decodes `bytes` to text; malformed UTF-8 is repaired, never refused.
pub fn lossy_text(bytes: &[u8]) -> (text: String)
    ensures
        text@ == text_of(bytes@),
        !valid_utf8(bytes@) ==> text@.contains('\u{FFFD}'),
{
    from_utf8_lossy(bytes)
}

/// Whether two byte strings hold the same bytes.
pub fn same_bytes(a: &[u8], b: &[u8]) -> (r: bool)
    ensures
        r == (a@ == b@),
{
    if a.len() != b.len() {
        return false;
    }
    let mut i: usize = 0;
    while i < a.len()
        invariant
            i <= a@.len(),
            a@.len() == b@.len(),
            forall|j: int| 0 <= j < i ==> a@[j] == b@[j],
        decreases a@.len() - i,
    {
        if a[i] != b[i] {
            return false;
        }
        i += 1;
    }
    assert(a@ =~= b@);
    true
}

/// Whether two texts are the same sequence of characters.
pub fn same_text(a: &str, b: &str) -> (r: bool)
    ensures
        r == (a@ == b@),
{
    proof {
        encode_utf8_decode_utf8(a@);
        encode_utf8_decode_utf8(b@);
    }
    same_bytes(a.as_bytes(), b.as_bytes())
}

/// A text without U+FFFD is what lossy decoding makes of exactly one byte
/// string: its own UTF-8 encoding.
pub(crate) proof fn lemma_text_of_is(bytes: Seq<u8>, text: Seq<char>)
    requires
        !text.contains('\u{FFFD}'),
        !valid_utf8(bytes) ==> utf8_lossy(bytes).contains('\u{FFFD}'),
    ensures
        text_of(bytes) == text <==> bytes == encode_utf8(text),
{
    if valid_utf8(bytes) {
        decode_utf8_encode_utf8(bytes);
    }
    encode_utf8_valid_utf8(text);
    encode_utf8_decode_utf8(text);
}

} // verus!
