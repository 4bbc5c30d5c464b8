use std::cmp::Ordering;
use std::collections::BTreeSet;

use torrent_meta::models::info_hash::{ConversionError, InfoHash};
use torrent_meta::utils::hex::HexError;

#[test]
fn an_info_hash_can_be_created_from_a_valid_40_utf8_char_string_representing_an_hexadecimal_value()
{
    let info_hash = InfoHash::from_str("FFFFFFFFFFFFFFFFFFFFFFFFFFFFFFFFFFFFFFFF");
    assert!(info_hash.is_ok());
}

#[test]
fn an_info_hash_can_not_be_created_from_a_utf8_string_representing_a_not_valid_hexadecimal_value()
{
    let info_hash = InfoHash::from_str("GGGGGGGGGGGGGGGGGGGGGGGGGGGGGGGGGGGGGGGG");
    assert!(info_hash.is_err());
}

#[test]
fn an_info_hash_can_only_be_created_from_a_40_utf8_char_string() {
    let info_hash = InfoHash::from_str(&"F".repeat(39));
    assert!(info_hash.is_err());

    let info_hash = InfoHash::from_str(&"F".repeat(41));
    assert!(info_hash.is_err());
}

#[test]
fn an_info_hash_should_by_displayed_like_a_40_utf8_lowercased_char_hex_string() {
    let info_hash = InfoHash::from_str("FFFFFFFFFFFFFFFFFFFFFFFFFFFFFFFFFFFFFFFF").unwrap();

    let output = info_hash.to_hex_string();

    assert_eq!(output, "ffffffffffffffffffffffffffffffffffffffff");
}

#[test]
fn an_info_hash_should_return_its_a_40_utf8_lowercased_char_hex_representations_as_string() {
    let info_hash = InfoHash::from_str("FFFFFFFFFFFFFFFFFFFFFFFFFFFFFFFFFFFFFFFF").unwrap();

    assert_eq!(
        info_hash.to_hex_string(),
        "ffffffffffffffffffffffffffffffffffffffff"
    );
}

#[test]
fn an_info_hash_can_be_created_from_a_valid_20_byte_array_slice() {
    let info_hash: InfoHash = InfoHash::from_bytes([255u8; 20].as_slice());

    assert_eq!(
        info_hash,
        InfoHash::from_str("FFFFFFFFFFFFFFFFFFFFFFFFFFFFFFFFFFFFFFFF").unwrap()
    );
}

#[test]
fn an_info_hash_can_be_created_from_a_valid_20_byte_array() {
    let info_hash: InfoHash = [255u8; 20].into();

    assert_eq!(
        info_hash,
        InfoHash::from_str("FFFFFFFFFFFFFFFFFFFFFFFFFFFFFFFFFFFFFFFF").unwrap()
    );
}

#[test]
fn an_info_hash_can_be_created_from_a_byte_vector() {
    let info_hash: InfoHash = [255u8; 20].to_vec().try_into().unwrap();

    assert_eq!(
        info_hash,
        InfoHash::from_str("FFFFFFFFFFFFFFFFFFFFFFFFFFFFFFFFFFFFFFFF").unwrap()
    );
}

#[test]
fn it_should_fail_trying_to_create_an_info_hash_from_a_byte_vector_with_less_than_20_bytes() {
    assert!(InfoHash::try_from([255u8; 19].to_vec()).is_err());
}

#[test]
fn it_should_fail_trying_to_create_an_info_hash_from_a_byte_vector_with_more_than_20_bytes() {
    assert!(InfoHash::try_from([255u8; 21].to_vec()).is_err());
}

fn counting_bytes() -> [u8; 20] {
    let mut bytes = [0u8; 20];
    for (i, byte) in bytes.iter_mut().enumerate() {
        *byte = (i as u8) * 13 + 7;
    }
    bytes
}

#[test]
fn from_bytes_keeps_every_byte_in_its_place() {
    let bytes = counting_bytes();
    let info_hash = InfoHash::from_bytes(&bytes);
    assert_eq!(info_hash.bytes(), bytes);
    assert_eq!(info_hash.0, bytes);
}

#[test]
fn the_hex_string_has_two_lowercase_digits_for_each_byte_high_half_first() {
    let info_hash = InfoHash::from(counting_bytes());
    assert_eq!(
        info_hash.to_hex_string(),
        "0714212e3b4855626f7c8996a3b0bdcad7e4f1fe"
    );
    assert_eq!(
        InfoHash::from([0u8; 20]).to_hex_string(),
        "0000000000000000000000000000000000000000"
    );
}

#[test]
fn parsing_the_hex_string_of_an_info_hash_gives_it_back() {
    for seed in 0u8..=255 {
        let mut bytes = [0u8; 20];
        for (i, byte) in bytes.iter_mut().enumerate() {
            *byte = seed.wrapping_mul(31).wrapping_add((i as u8).wrapping_mul(17));
        }
        let info_hash = InfoHash::from_bytes(&bytes);
        let parsed = InfoHash::from_str(&info_hash.to_hex_string());
        assert_eq!(parsed, Ok(info_hash));
    }
}

#[test]
fn mixed_case_hex_is_accepted_and_comes_back_in_lowercase() {
    let text = "0123456789aBcDeFABCDEFabcdef0123456789Ff";
    let info_hash = InfoHash::from_str(text).unwrap();
    assert_eq!(
        info_hash.bytes(),
        [
            0x01, 0x23, 0x45, 0x67, 0x89, 0xab, 0xcd, 0xef, 0xab, 0xcd, 0xef, 0xab, 0xcd, 0xef,
            0x01, 0x23, 0x45, 0x67, 0x89, 0xff
        ]
    );
    assert_eq!(info_hash.to_hex_string(), text.to_lowercase());
}

#[test]
fn hex_text_of_a_wrong_length_is_an_invalid_input_length() {
    assert_eq!(
        InfoHash::from_str(&"F".repeat(39)),
        Err(HexError::InvalidInputLength)
    );
    assert_eq!(
        InfoHash::from_str(&"F".repeat(41)),
        Err(HexError::InvalidInputLength)
    );
    assert_eq!(InfoHash::from_str(""), Err(HexError::InvalidInputLength));
    assert!(InfoHash::from_str(&"F".repeat(40)).is_ok());
}

#[test]
fn forty_bytes_that_are_not_all_digits_are_an_invalid_input() {
    assert_eq!(
        InfoHash::from_str("GGGGGGGGGGGGGGGGGGGGGGGGGGGGGGGGGGGGGGGG"),
        Err(HexError::InvalidInput)
    );
    let mut text = "f".repeat(39);
    text.push('g');
    assert_eq!(InfoHash::from_str(&text), Err(HexError::InvalidInput));
    let mut text = "0".repeat(39);
    text.push(' ');
    assert_eq!(InfoHash::from_str(&text), Err(HexError::InvalidInput));
    // 38 digits and one character of two bytes: forty bytes, not all digits.
    let mut text = "0".repeat(38);
    text.push('é');
    assert_eq!(text.len(), 40);
    assert_eq!(InfoHash::from_str(&text), Err(HexError::InvalidInput));
}

#[test]
fn forty_characters_of_more_than_forty_bytes_are_an_invalid_input_length() {
    let mut text = "0".repeat(39);
    text.push('é');
    assert_eq!(text.chars().count(), 40);
    assert_eq!(InfoHash::from_str(&text), Err(HexError::InvalidInputLength));
}

#[test]
fn the_from_str_trait_parses_as_the_method_does() {
    let parsed: Result<InfoHash, HexError> = "00000000000000000000000000000000000000aB".parse();
    let mut bytes = [0u8; 20];
    bytes[19] = 0xab;
    assert_eq!(parsed, Ok(InfoHash(bytes)));
    let refused: Result<InfoHash, HexError> = "xyz".parse();
    assert_eq!(refused, Err(HexError::InvalidInputLength));
}

#[test]
fn a_byte_vector_of_nineteen_bytes_is_not_enough() {
    assert_eq!(
        InfoHash::try_from([255u8; 19].to_vec()),
        Err(ConversionError::NotEnoughBytes {
            got: 19,
            expected: 20
        })
    );
    assert_eq!(
        InfoHash::try_from(Vec::new()),
        Err(ConversionError::NotEnoughBytes {
            got: 0,
            expected: 20
        })
    );
}

#[test]
fn a_byte_vector_of_twenty_one_bytes_is_too_many() {
    assert_eq!(
        InfoHash::try_from([255u8; 21].to_vec()),
        Err(ConversionError::TooManyBytes {
            got: 21,
            expected: 20
        })
    );
}

#[test]
fn a_byte_vector_of_twenty_bytes_converts() {
    let bytes = counting_bytes();
    assert_eq!(InfoHash::try_from(bytes.to_vec()), Ok(InfoHash(bytes)));
}

#[test]
fn the_larger_last_byte_sorts_greater() {
    let mut low = [0x55u8; 20];
    let mut high = [0x55u8; 20];
    low[19] = 0x10;
    high[19] = 0x11;
    let low = InfoHash(low);
    let high = InfoHash(high);
    assert!(low < high);
    assert!(high > low);
    assert_eq!(low.partial_cmp(&high), Some(Ordering::Less));
    assert_eq!(high.partial_cmp(&low), Some(Ordering::Greater));
    assert_eq!(low.cmp(&high), Ordering::Less);
    assert_eq!(high.cmp(&low), Ordering::Greater);
    assert_eq!(low.partial_cmp(&low), Some(Ordering::Equal));
}

#[test]
fn the_first_differing_byte_decides_the_order() {
    let mut a = [0u8; 20];
    let mut b = [0u8; 20];
    a[3] = 1;
    a[19] = 0;
    b[3] = 0;
    b[19] = 255;
    let a = InfoHash(a);
    let b = InfoHash(b);
    assert!(b < a);
    assert_eq!(a.first_difference(&b), 3);
    assert_eq!(a.first_difference(&a), 20);
    assert_eq!(a.partial_cmp(&b), Some(a.cmp(&b)));
    assert!(InfoHash([0x7f; 20]) < InfoHash([0x80; 20]));
}

#[test]
fn equal_bytes_are_equal_info_hashes() {
    let bytes = counting_bytes();
    assert_eq!(InfoHash(bytes), InfoHash::from_bytes(&bytes));
    let mut other = bytes;
    other[0] ^= 1;
    assert_ne!(InfoHash(bytes), InfoHash(other));
    let mut last = bytes;
    last[19] ^= 0x80;
    assert_ne!(InfoHash(bytes), InfoHash(last));
}

#[test]
fn info_hashes_are_usable_as_keys_of_an_ordered_set() {
    let mut set = BTreeSet::new();
    set.insert(InfoHash([3u8; 20]));
    set.insert(InfoHash([1u8; 20]));
    set.insert(InfoHash([2u8; 20]));
    set.insert(InfoHash([1u8; 20]));
    let in_order: Vec<InfoHash> = set.into_iter().collect();
    assert_eq!(
        in_order,
        vec![
            InfoHash([1u8; 20]),
            InfoHash([2u8; 20]),
            InfoHash([3u8; 20])
        ]
    );
}
