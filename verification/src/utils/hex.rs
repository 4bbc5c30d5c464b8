//! Base16 text: what the hexadecimal form of a byte string is, and the
//! calls into `binascii` that compute it.

use vstd::prelude::*;
use crate::utils::text::{ascii_text, is_ascii_bytes};

verus! {

/// Why a conversion between bytes and hexadecimal text failed.
#[derive(PartialEq, Eq, Structural, Clone, Copy, Debug)]
pub enum HexError {
    /// The text has an odd number of digits, or not the number of digits
    /// that the caller asked for.
    InvalidInputLength,
    /// The buffer for the result is too short.
    InvalidOutputLength,
    /// The text holds a byte that is no hexadecimal digit.
    InvalidInput,
}

/// The ASCII code of the lowercase hexadecimal digit for a value below
/// sixteen.
pub open spec fn hex_digit(nibble: int) -> u8 {
    if nibble < 10 {
        (0x30 + nibble) as u8
    } else {
        (0x61 + nibble - 10) as u8
    }
}

/// The value of an ASCII hexadecimal digit of either case; `None` for any
/// other byte.
pub open spec fn hex_value(digit: u8) -> Option<int> {
    if 0x30 <= digit <= 0x39 {
        Some(digit - 0x30)
    } else if 0x61 <= digit <= 0x66 {
        Some(digit - 0x61 + 10)
    } else if 0x41 <= digit <= 0x46 {
        Some(digit - 0x41 + 10)
    } else {
        None
    }
}

/// Every byte of `text` is a hexadecimal digit.
pub open spec fn all_hex_digits(text: Seq<u8>) -> bool {
    forall|i: int| 0 <= i < text.len() ==> (#[trigger] hex_value(text[i])) is Some
}

/// The lowercase hexadecimal text of `bytes`: two digits for each byte, the
/// high half first.
pub open spec fn hex_encode(bytes: Seq<u8>) -> Seq<u8> {
    Seq::new(
        2 * bytes.len(),
        |i: int|
            if i % 2 == 0 {
                hex_digit(bytes[i / 2] as int / 16)
            } else {
                hex_digit(bytes[i / 2] as int % 16)
            },
    )
}

/// The bytes that hexadecimal `text` stands for, one for each pair of
/// digits. Meaningful where `text` has an even length and holds digits only.
pub open spec fn hex_decode(text: Seq<u8>) -> Seq<u8> {
    Seq::new(
        text.len() / 2,
        |i: int| (16 * hex_value(text[2 * i])->0 + hex_value(text[2 * i + 1])->0) as u8,
    )
}

/// `binascii::hex2bin`: decodes hexadecimal `input` into the front of
/// `output`.
///
/// The contract restates the three tests of that function in their order:
/// an odd input length, an output shorter than half the input, a byte that is
/// no digit. On the first two nothing is written. On success the first
/// `input.len() / 2` bytes of `output` are the decoded bytes and the rest of
/// it is untouched.
#[verifier::external_body]
pub(crate) fn hex2bin(input: &[u8], output: &mut [u8]) -> (res: Result<(), HexError>)
    ensures
        input@.len() % 2 != 0 ==> {
            &&& res.err() == Some(HexError::InvalidInputLength)
            &&& final(output)@ == old(output)@
        },
        input@.len() % 2 == 0 && input@.len() / 2 > old(output)@.len() ==> {
            &&& res.err() == Some(HexError::InvalidOutputLength)
            &&& final(output)@ == old(output)@
        },
        input@.len() % 2 == 0 && input@.len() / 2 <= old(output)@.len() && !all_hex_digits(input@)
            ==> {
            &&& res.err() == Some(HexError::InvalidInput)
            &&& final(output)@.len() == old(output)@.len()
        },
        input@.len() % 2 == 0 && input@.len() / 2 <= old(output)@.len() && all_hex_digits(input@)
            ==> {
            &&& res is Ok
            &&& final(output)@ == hex_decode(input@) + old(output)@.skip(input@.len() as int / 2)
        },
{
    match binascii::hex2bin(input, output) {
        Ok(_) => Ok(()),
        Err(binascii::ConvertError::InvalidInputLength) => Err(HexError::InvalidInputLength),
        Err(binascii::ConvertError::InvalidOutputLength) => Err(HexError::InvalidOutputLength),
        Err(binascii::ConvertError::InvalidInput) => Err(HexError::InvalidInput),
    }
}

/// `binascii::bin2hex`: writes the lowercase hexadecimal text of `input` to
/// the front of `output`.
///
/// That function fails, writing nothing, where `output` is shorter than twice
/// the input; else it writes two digits for each byte and leaves the rest of
/// `output` untouched. Twice the input's length has to fit in `usize`.
#[verifier::external_body]
pub(crate) fn bin2hex(input: &[u8], output: &mut [u8]) -> (res: Result<(), HexError>)
    requires
        2 * input@.len() <= usize::MAX,
    ensures
        old(output)@.len() < 2 * input@.len() ==> {
            &&& res.err() == Some(HexError::InvalidOutputLength)
            &&& final(output)@ == old(output)@
        },
        old(output)@.len() >= 2 * input@.len() ==> {
            &&& res is Ok
            &&& final(output)@ == hex_encode(input@) + old(output)@.skip(2 * input@.len() as int)
        },
{
    match binascii::bin2hex(input, output) {
        Ok(_) => Ok(()),
        Err(binascii::ConvertError::InvalidInputLength) => Err(HexError::InvalidInputLength),
        Err(binascii::ConvertError::InvalidOutputLength) => Err(HexError::InvalidOutputLength),
        Err(binascii::ConvertError::InvalidInput) => Err(HexError::InvalidInput),
    }
}

/// The lowercase hexadecimal text of `bytes` as characters.
pub open spec fn hex_text(bytes: Seq<u8>) -> Seq<char> {
    ascii_text(hex_encode(bytes))
}

/// The lowercase form of an ASCII letter; any other byte unchanged.
pub open spec fn ascii_lower(byte: u8) -> u8 {
    if 0x41 <= byte <= 0x5a {
        (byte + 0x20) as u8
    } else {
        byte
    }
}

/// Hexadecimal text is made of hexadecimal digits, which are ASCII.
pub proof fn lemma_hex_encode_digits(bytes: Seq<u8>)
    ensures
        hex_encode(bytes).len() == 2 * bytes.len(),
        all_hex_digits(hex_encode(bytes)),
        is_ascii_bytes(hex_encode(bytes)),
        forall|i: int|
            0 <= i < hex_encode(bytes).len() ==> ascii_lower(#[trigger] hex_encode(bytes)[i])
                == hex_encode(bytes)[i],
{
    let text = hex_encode(bytes);
    assert forall|i: int| 0 <= i < text.len() implies (#[trigger] hex_value(text[i])) is Some
        && text[i] < 128 && ascii_lower(text[i]) == text[i] by {
        let b = bytes[i / 2] as int;
        assert(0 <= b / 16 < 16 && 0 <= b % 16 < 16);
    }
}

/// Decoding the hexadecimal text of a byte string gives the byte string back.
pub proof fn lemma_hex_round_trip(bytes: Seq<u8>)
    ensures
        all_hex_digits(hex_encode(bytes)),
        hex_encode(bytes).len() % 2 == 0,
        hex_decode(hex_encode(bytes)) == bytes,
{
    lemma_hex_encode_digits(bytes);
    let text = hex_encode(bytes);
    assert(hex_decode(text) =~= bytes) by {
        assert forall|i: int| 0 <= i < bytes.len() implies hex_decode(text)[i] == bytes[i] by {
            let b = bytes[i] as int;
            assert((2 * i) / 2 == i && (2 * i) % 2 == 0);
            assert((2 * i + 1) / 2 == i && (2 * i + 1) % 2 == 1);
            assert(0 <= b / 16 < 16 && 0 <= b % 16 < 16);
            assert(16 * (b / 16) + b % 16 == b);
        }
    }
}

/// Encoding what hexadecimal text of either case stands for gives that text
/// in lowercase.
pub proof fn lemma_hex_normalizes(text: Seq<u8>)
    requires
        text.len() % 2 == 0,
        all_hex_digits(text),
    ensures
        hex_encode(hex_decode(text)) == text.map_values(|b: u8| ascii_lower(b)),
{
    let bytes = hex_decode(text);
    let lower = text.map_values(|b: u8| ascii_lower(b));
    assert(hex_encode(bytes) =~= lower) by {
        assert forall|i: int| 0 <= i < text.len() implies hex_encode(bytes)[i] == lower[i] by {
            let k = i / 2;
            assert(hex_value(text[2 * k]) is Some);
            assert(hex_value(text[2 * k + 1]) is Some);
            let hi = hex_value(text[2 * k])->0;
            let lo = hex_value(text[2 * k + 1])->0;
            assert(0 <= hi < 16 && 0 <= lo < 16);
            assert(bytes[k] == 16 * hi + lo);
            assert((16 * hi + lo) / 16 == hi && (16 * hi + lo) % 16 == lo);
            assert(hex_value(text[i]) is Some);
        }
    }
}

} // verus!
