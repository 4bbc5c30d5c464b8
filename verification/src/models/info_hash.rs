//! The `BitTorrent` v1 info-hash: a 20-byte identifier.

use vstd::prelude::*;
use vstd::pervasive::unreached;
use vstd::utf8::{encode_utf8, is_ascii_chars, is_ascii_chars_encode_utf8};
use crate::utils::hex::{
    all_hex_digits, ascii_lower, bin2hex, hex2bin, hex_decode, hex_encode, hex_text, hex_value,
    lemma_hex_encode_digits, lemma_hex_normalizes, lemma_hex_round_trip, HexError,
};
use crate::utils::text::{ascii_text, lemma_ascii_bytes_are_text, str_from_utf8};

verus! {

/// Number of bytes in an info-hash.
pub const INFO_HASH_BYTES_LEN: usize = 20;

/// `BitTorrent` Info Hash v1
#[derive(Eq, Ord, Hash, Clone, Copy, Debug)]
pub struct InfoHash(pub [u8; 20]);

impl View for InfoHash {
    type V = Seq<u8>;

    /// The twenty bytes of the identifier, first byte first.
    open spec fn view(&self) -> Seq<u8> {
        self.0@
    }
}

/// Errors that can occur when converting from a `Vec<u8>` to an `InfoHash`.
#[derive(PartialEq, Eq, Structural, Clone, Copy, Debug)]
pub enum ConversionError {
    /// Not enough bytes for info-hash. An info-hash is 20 bytes.
    NotEnoughBytes {
        /// Number of bytes that were given.
        got: usize,
        /// Number of bytes that an info-hash has.
        expected: usize,
    },
    /// Too many bytes for info-hash. An info-hash is 20 bytes.
    TooManyBytes {
        /// Number of bytes that were given.
        got: usize,
        /// Number of bytes that an info-hash has.
        expected: usize,
    },
}

/// The identifier that holds the bytes `bytes`, where there are twenty of
/// them.
pub open spec fn info_hash_of(bytes: Seq<u8>) -> InfoHash {
    choose|h: InfoHash| h@ == bytes
}

/// What converting a byte string of any length to an identifier gives.
pub open spec fn info_hash_from(bytes: Seq<u8>) -> Result<InfoHash, ConversionError> {
    if bytes.len() < INFO_HASH_BYTES_LEN {
        Err(
            ConversionError::NotEnoughBytes {
                got: bytes.len() as usize,
                expected: INFO_HASH_BYTES_LEN,
            },
        )
    } else if bytes.len() > INFO_HASH_BYTES_LEN {
        Err(
            ConversionError::TooManyBytes {
                got: bytes.len() as usize,
                expected: INFO_HASH_BYTES_LEN,
            },
        )
    } else {
        Ok(info_hash_of(bytes))
    }
}

/// What parsing the text `text` as the hex form of an identifier gives.
pub open spec fn info_hash_from_hex(text: Seq<char>) -> Result<InfoHash, HexError> {
    let digits = encode_utf8(text);
    if digits.len() != 40 {
        Err(HexError::InvalidInputLength)
    } else if !all_hex_digits(digits) {
        Err(HexError::InvalidInput)
    } else {
        Ok(info_hash_of(hex_decode(digits)))
    }
}

/// Identifiers with the same bytes are the same identifier.
pub proof fn lemma_info_hash_ext(a: InfoHash, b: InfoHash)
    requires
        a@ == b@,
    ensures
        a == b,
{
    assert(a.0 =~= b.0);
}

/// An array whose first `n` bytes are those of `bytes`.
spec fn array_with(bytes: Seq<u8>, n: nat) -> [u8; 20]
    decreases n,
{
    if n == 0 {
        vstd::array::spec_array_fill_for_copy_type(0u8)
    } else {
        vstd::array::spec_array_update(array_with(bytes, (n - 1) as nat), n - 1, bytes[n - 1])
    }
}

proof fn lemma_array_with(bytes: Seq<u8>, n: nat)
    requires
        n <= 20,
    ensures
        forall|j: int| 0 <= j < n ==> array_with(bytes, n)@[j] == bytes[j],
    decreases n,
{
    broadcast use vstd::array::group_array_axioms;

    if n > 0 {
        lemma_array_with(bytes, (n - 1) as nat);
    }
}

/// Every string of twenty bytes is the view of an identifier.
pub proof fn lemma_info_hash_exists(bytes: Seq<u8>)
    requires
        bytes.len() == INFO_HASH_BYTES_LEN,
    ensures
        info_hash_of(bytes)@ == bytes,
{
    lemma_array_with(bytes, 20);
    let h = InfoHash(array_with(bytes, 20));
    assert(h@ =~= bytes);
}

/// `info_hash_of` is the inverse of the view.
pub proof fn lemma_info_hash_of(h: InfoHash)
    ensures
        info_hash_of(h@) == h,
{
    lemma_info_hash_ext(info_hash_of(h@), h);
}

impl InfoHash {
    /// Create a new `InfoHash` from a byte slice that holds exactly
    /// twenty bytes.
    #[must_use]
    pub fn from_bytes(bytes: &[u8]) -> (ret: Self)
        requires
            bytes@.len() == INFO_HASH_BYTES_LEN,
        ensures
            ret@ == bytes@,
    {
        let mut data = [0u8; 20];
        let mut i: usize = 0;
        while i < 20
            invariant
                i <= 20,
                bytes@.len() == 20,
                forall|j: int| 0 <= j < i ==> data@[j] == bytes@[j],
            decreases 20 - i,
        {
            data[i] = bytes[i];
            i += 1;
        }
        assert(data@ =~= bytes@);
        InfoHash(data)
    }

    /// Returns the `InfoHash` internal byte array.
    #[must_use]
    pub fn bytes(&self) -> (ret: [u8; 20])
        ensures
            ret == self.0,
    {
        self.0
    }

    /// Returns the `InfoHash` as a hex string: forty lowercase hexadecimal
    /// digits, two for each byte.
    #[must_use]
    pub fn to_hex_string(&self) -> (ret: String)
        ensures
            ret@ == hex_text(self@),
            ret@.len() == 40,
            forall|i: int| 0 <= i < 40 ==> is_lower_hex_char(#[trigger] ret@[i]),
    {
        let mut chars = [0u8; 40];
        if bin2hex(&self.0, &mut chars).is_err() {
            unreached::<()>();
        }
        proof {
            lemma_hex_encode_digits(self@);
            assert(chars@ =~= hex_encode(self@));
            lemma_ascii_bytes_are_text(chars@);
            lemma_hex_text_is_lowercase(self@);
        }
        match str_from_utf8(&chars) {
            Some(text) => {
                proof {
                    vstd::utf8::encode_utf8_decode_utf8(text@);
                }
                text.to_owned()
            },
            None => unreached(),
        }
    }

    /// Parses the hex form of an identifier: forty hexadecimal digits of
    /// either case.
    ///
    /// A text that is not forty bytes long is refused as
    /// `InvalidInputLength`, one of forty bytes that are not all hexadecimal
    /// digits as `InvalidInput`.
    pub fn from_str(s: &str) -> (ret: Result<Self, HexError>)
        ensures
            ret == info_hash_from_hex(s@),
    {
        let mut data = [0u8; 20];
        let digits = s.as_bytes();
        if digits.len() != 40 {
            return Err(HexError::InvalidInputLength);
        }
        match hex2bin(digits, &mut data) {
            Ok(()) => {
                let hash = InfoHash(data);
                proof {
                    assert(hash@ =~= hex_decode(digits@));
                    lemma_info_hash_of(hash);
                }
                Ok(hash)
            },
            Err(e) => Err(e),
        }
    }
}

impl core::str::FromStr for InfoHash {
    type Err = HexError;

    /// Parses the hex form of an identifier, as [`InfoHash::from_str`] does.
    fn from_str(s: &str) -> (ret: Result<Self, HexError>)
        ensures
            ret == info_hash_from_hex(s@),
    {
        InfoHash::from_str(s)
    }
}

/// `k` is the first place at which `a` and `b` differ.
pub open spec fn differs_first_at(a: Seq<u8>, b: Seq<u8>, k: int) -> bool {
    &&& 0 <= k < a.len()
    &&& k < b.len()
    &&& a[k] != b[k]
    &&& forall|j: int| 0 <= j < k ==> a[j] == b[j]
}

/// `a` comes before `b` in the order of byte strings of one length: at the
/// first place where they differ, `a` has the smaller byte.
pub open spec fn sorts_before(a: Seq<u8>, b: Seq<u8>) -> bool {
    exists|k: int| #[trigger] differs_first_at(a, b, k) && a[k] < b[k]
}

/// Two byte strings differ first at one place only.
pub proof fn lemma_first_difference_unique(a: Seq<u8>, b: Seq<u8>, first: usize, k: int)
    requires
        differs_first_at(a, b, first as int),
        differs_first_at(a, b, k),
    ensures
        k == first,
{
    if k < first {
        assert(a[k] == b[k]);
    } else if k > first {
        assert(a[first as int] == b[first as int]);
    }
}

/// Two different byte strings of one length differ first somewhere.
proof fn lemma_differs_somewhere(a: Seq<u8>, b: Seq<u8>, from: int)
    requires
        a.len() == b.len(),
        0 <= from <= a.len(),
        forall|j: int| 0 <= j < from ==> a[j] == b[j],
        a != b,
    ensures
        exists|k: int| differs_first_at(a, b, k),
    decreases a.len() - from,
{
    if from == a.len() {
        assert(a =~= b);
    } else if a[from] != b[from] {
        assert(differs_first_at(a, b, from));
    } else {
        lemma_differs_somewhere(a, b, from + 1);
    }
}

/// The order of byte strings of one length is total: of two different
/// strings exactly one comes before the other, and none before itself.
pub proof fn lemma_sorts_before_total(a: Seq<u8>, b: Seq<u8>)
    requires
        a.len() == b.len(),
    ensures
        a == b || sorts_before(a, b) || sorts_before(b, a),
        !(sorts_before(a, b) && sorts_before(b, a)),
        a == b ==> !sorts_before(a, b),
{
    if a != b {
        lemma_differs_somewhere(a, b, 0);
        let k = choose|k: int| differs_first_at(a, b, k);
        assert(differs_first_at(b, a, k));
    }
    if sorts_before(a, b) && sorts_before(b, a) {
        let k1 = choose|k: int| #[trigger] differs_first_at(a, b, k) && a[k] < b[k];
        let k2 = choose|k: int| #[trigger] differs_first_at(b, a, k) && b[k] < a[k];
        if k1 < k2 {
            assert(b[k1] == a[k1]);
        } else if k2 < k1 {
            assert(a[k2] == b[k2]);
        }
    }
}

/// The order of byte strings is transitive.
pub proof fn lemma_sorts_before_transitive(a: Seq<u8>, b: Seq<u8>, c: Seq<u8>)
    requires
        sorts_before(a, b),
        sorts_before(b, c),
    ensures
        sorts_before(a, c),
{
    let k1 = choose|k: int| #[trigger] differs_first_at(a, b, k) && a[k] < b[k];
    let k2 = choose|k: int| #[trigger] differs_first_at(b, c, k) && b[k] < c[k];
    let k = if k1 <= k2 {
        k1
    } else {
        k2
    };
    assert forall|j: int| 0 <= j < k implies a[j] == c[j] by {
        assert(a[j] == b[j]);
        assert(b[j] == c[j]);
    }
    if k1 < k2 {
        assert(b[k1] == c[k1]);
    } else if k2 < k1 {
        assert(a[k2] == b[k2]);
    }
    assert(differs_first_at(a, c, k));
}

impl InfoHash {
    /// The first index at which the bytes of two identifiers differ; 20
    /// where they are equal.
    pub fn first_difference(&self, other: &Self) -> (k: usize)
        ensures
            k <= 20,
            k == 20 <==> self@ == other@,
            k < 20 ==> differs_first_at(self@, other@, k as int),
    {
        let mut i: usize = 0;
        while i < 20
            invariant
                i <= 20,
                forall|j: int| 0 <= j < i ==> self.0@[j] == other.0@[j],
            decreases 20 - i,
        {
            if self.0[i] != other.0[i] {
                return i;
            }
            i += 1;
        }
        assert(self.0@ =~= other.0@);
        i
    }
}

impl PartialEq for InfoHash {
    /// Two identifiers are equal when they hold the same bytes.
    fn eq(&self, other: &Self) -> (r: bool)
        ensures
            r == (self@ == other@),
    {
        self.first_difference(other) == 20
    }
}

impl vstd::std_specs::cmp::PartialEqSpecImpl for InfoHash {
    open spec fn obeys_eq_spec() -> bool {
        true
    }

    open spec fn eq_spec(&self, other: &Self) -> bool {
        self@ == other@
    }
}

impl From<[u8; 20]> for InfoHash {
    /// The identifier that holds the twenty bytes of `val`.
    fn from(val: [u8; 20]) -> (ret: Self)
        ensures
            ret == InfoHash(val),
    {
        InfoHash(val)
    }
}

impl vstd::std_specs::convert::FromSpecImpl<[u8; 20]> for InfoHash {
    open spec fn obeys_from_spec() -> bool {
        true
    }

    open spec fn from_spec(val: [u8; 20]) -> Self {
        InfoHash(val)
    }
}

impl TryFrom<Vec<u8>> for InfoHash {
    type Error = ConversionError;

    /// Converts a byte vector of exactly twenty bytes; a shorter one is
    /// refused as `NotEnoughBytes`, a longer one as `TooManyBytes`.
    fn try_from(bytes: Vec<u8>) -> (ret: Result<Self, Self::Error>)
        ensures
            ret == info_hash_from(bytes@),
    {
        if bytes.len() < INFO_HASH_BYTES_LEN {
            return Err(
                ConversionError::NotEnoughBytes { got: bytes.len(), expected: INFO_HASH_BYTES_LEN },
            );
        }
        if bytes.len() > INFO_HASH_BYTES_LEN {
            return Err(
                ConversionError::TooManyBytes { got: bytes.len(), expected: INFO_HASH_BYTES_LEN },
            );
        }
        let hash = Self::from_bytes(bytes.as_slice());
        proof {
            lemma_info_hash_of(hash);
        }
        Ok(hash)
    }
}

impl vstd::std_specs::convert::TryFromSpecImpl<Vec<u8>> for InfoHash {
    open spec fn obeys_try_from_spec() -> bool {
        true
    }

    open spec fn try_from_spec(bytes: Vec<u8>) -> Result<Self, Self::Error> {
        info_hash_from(bytes@)
    }
}

/// A hexadecimal digit that is no capital letter.
pub open spec fn is_lower_hex_char(c: char) -> bool {
    ('0' <= c <= '9') || ('a' <= c <= 'f')
}

/// The hexadecimal text of bytes has two digits for each byte, none of them
/// a capital letter.
pub proof fn lemma_hex_text_is_lowercase(bytes: Seq<u8>)
    ensures
        hex_text(bytes).len() == 2 * bytes.len(),
        forall|i: int|
            0 <= i < hex_text(bytes).len() ==> is_lower_hex_char(#[trigger] hex_text(bytes)[i]),
{
    assert forall|i: int| 0 <= i < hex_text(bytes).len() implies is_lower_hex_char(
        #[trigger] hex_text(bytes)[i],
    ) by {
        let b = bytes[i / 2] as int;
        assert(0 <= b / 16 < 16 && 0 <= b % 16 < 16);
    }
}

/// A hexadecimal digit of either case.
pub open spec fn is_hex_char(c: char) -> bool {
    ('0' <= c <= '9') || ('a' <= c <= 'f') || ('A' <= c <= 'F')
}

/// Forty hexadecimal digits of either case.
pub open spec fn is_hex_form(text: Seq<char>) -> bool {
    text.len() == 40 && forall|i: int| 0 <= i < text.len() ==> is_hex_char(#[trigger] text[i])
}

/// `text` with its ASCII capitals replaced by the small letters.
pub open spec fn ascii_lowercase(text: Seq<char>) -> Seq<char> {
    text.map_values(
        |c: char|
            if 'A' <= c <= 'Z' {
                ((c as u8) + 0x20) as char
            } else {
                c
            },
    )
}

/// A text of hexadecimal digits is encoded with one byte for each digit.
proof fn lemma_hex_form_bytes(text: Seq<char>)
    ensures
        is_hex_form(text) <==> encode_utf8(text).len() == 40 && all_hex_digits(encode_utf8(text)),
        is_hex_form(text) ==> text == ascii_text(encode_utf8(text)),
{
    let digits = encode_utf8(text);
    if is_hex_form(text) {
        assert(is_ascii_chars(text));
        is_ascii_chars_encode_utf8(text);
        assert forall|i: int| 0 <= i < digits.len() implies (#[trigger] hex_value(
            digits[i],
        )) is Some by {
            assert(is_hex_char(text[i]));
            assert(text[i] as u8 == digits[i]);
        }
        assert(text =~= ascii_text(digits)) by {
            assert forall|i: int| 0 <= i < text.len() implies text[i] == digits[i] as char by {
                assert(is_hex_char(text[i]));
                assert(text[i] as u8 == digits[i]);
            }
        }
    }
    if digits.len() == 40 && all_hex_digits(digits) {
        assert forall|i: int| 0 <= i < digits.len() implies #[trigger] digits[i] < 128 by {
            assert(hex_value(digits[i]) is Some);
        }
        lemma_ascii_bytes_are_text(digits);
        vstd::utf8::encode_utf8_decode_utf8(text);
        assert(text == ascii_text(digits));
        assert forall|i: int| 0 <= i < text.len() implies is_hex_char(#[trigger] text[i]) by {
            assert(hex_value(digits[i]) is Some);
            assert(text[i] == digits[i] as char);
        }
    }
}

/// Parsing succeeds on the texts of forty hexadecimal digits, of either
/// case, and on no other text.
pub proof fn lemma_from_hex_accepts(text: Seq<char>)
    ensures
        info_hash_from_hex(text) is Ok <==> is_hex_form(text),
{
    lemma_hex_form_bytes(text);
}

/// Round trip: parsing the hex string of an identifier gives that identifier
/// back.
pub proof fn lemma_hex_string_round_trip(h: InfoHash)
    ensures
        is_hex_form(hex_text(h@)),
        info_hash_from_hex(hex_text(h@)) == Ok::<InfoHash, HexError>(h),
{
    let digits = hex_encode(h@);
    lemma_hex_round_trip(h@);
    lemma_hex_encode_digits(h@);
    lemma_ascii_bytes_are_text(digits);
    lemma_hex_form_bytes(hex_text(h@));
    lemma_info_hash_of(h);
}

/// Normalization: the hex string of an identifier parsed from digits of
/// either case is the same digits in lowercase.
pub proof fn lemma_hex_string_is_lowercase(text: Seq<char>)
    requires
        is_hex_form(text),
    ensures
        info_hash_from_hex(text) is Ok,
        hex_text(info_hash_from_hex(text)->Ok_0@) == ascii_lowercase(text),
{
    let digits = encode_utf8(text);
    lemma_hex_form_bytes(text);
    let h = info_hash_of(hex_decode(digits));
    lemma_info_hash_exists(hex_decode(digits));
    lemma_hex_normalizes(digits);
    assert(hex_text(h@) =~= ascii_lowercase(text)) by {
        assert forall|i: int| 0 <= i < 40 implies hex_text(h@)[i] == ascii_lowercase(text)[i] by {
            assert(is_hex_char(text[i]));
            assert(text[i] == digits[i] as char);
            assert(hex_encode(h@)[i] == ascii_lower(digits[i]));
        }
    }
}

} // verus!
