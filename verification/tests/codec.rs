use elf64::bytes::{convert, read_be, read_le, str_from_u8, to_i64, Address};
use elf64::ehdr::ElfHData;
use elf64::parser::ParseError;

#[test]
fn le_u16_matches_little_endian_interpretation() {
    let r: u16 = convert([0x34, 0x12], ElfHData::ElfData2Lsb);
    assert_eq!(r, 0x1234);
}

#[test]
fn be_u16_matches_big_endian_interpretation() {
    let r: u16 = convert([0x34, 0x12], ElfHData::ElfData2Msb);
    assert_eq!(r, 0x3412);
}

#[test]
fn le_u32_matches_little_endian_interpretation() {
    let r: u32 = convert([0x78, 0x56, 0x34, 0x12], ElfHData::ElfData2Lsb);
    assert_eq!(r, 0x12345678);
}

#[test]
fn be_u32_matches_big_endian_interpretation() {
    let r: u32 = convert([0x78, 0x56, 0x34, 0x12], ElfHData::ElfData2Msb);
    assert_eq!(r, 0x78563412);
}

#[test]
fn le_u64_matches_little_endian_interpretation() {
    let bytes = [0xEF, 0xCD, 0xAB, 0x89, 0x67, 0x45, 0x23, 0x01];
    let r: u64 = convert(bytes, ElfHData::ElfData2Lsb);
    assert_eq!(r, 0x0123456789ABCDEF);
}

#[test]
fn be_u64_matches_big_endian_interpretation() {
    let bytes = [0xEF, 0xCD, 0xAB, 0x89, 0x67, 0x45, 0x23, 0x01];
    let r: u64 = convert(bytes, ElfHData::ElfData2Msb);
    assert_eq!(r, 0xEFCDAB8967452301);
}

#[test]
fn address_decodes_like_u64() {
    let bytes = [1, 0, 0, 0, 0, 0, 0, 0x80];
    let a: Address = convert(bytes, ElfHData::ElfData2Lsb);
    assert_eq!(a, Address(0x8000000000000001));
    let b: Address = convert(bytes, ElfHData::ElfData2Msb);
    assert_eq!(b, Address(0x0100000000000080));
}

#[test]
fn endianness_disagrees_on_asymmetric_patterns() {
    // An asymmetric pattern reads differently in the two byte orders.
    let bytes = [1, 2, 3, 4];
    let le: u32 = convert(bytes, ElfHData::ElfData2Lsb);
    let be: u32 = convert(bytes, ElfHData::ElfData2Msb);
    assert_ne!(le, be);
}

#[test]
fn endianness_agrees_on_palindromic_patterns() {
    // All-zero, all-equal, and mirrored patterns read the same both ways.
    for bytes in [[0u8; 4], [0xAA; 4], [1, 2, 2, 1]] {
        let le: u32 = convert(bytes, ElfHData::ElfData2Lsb);
        let be: u32 = convert(bytes, ElfHData::ElfData2Msb);
        assert_eq!(le, be);
    }
}

#[test]
fn read_le_and_read_be_at_offsets() {
    let data = [0xFF, 0x34, 0x12, 0xFF];
    assert_eq!(read_le(&data, 1, 2), 0x1234);
    assert_eq!(read_be(&data, 1, 2), 0x3412);
    assert_eq!(read_le(&data, 0, 0), 0);
}

#[test]
fn to_i64_reinterprets_bit_patterns() {
    assert_eq!(to_i64(0), 0);
    assert_eq!(to_i64(5), 5);
    assert_eq!(to_i64(u64::MAX), -1);
    assert_eq!(to_i64(0x8000000000000000), i64::MIN);
    assert_eq!(to_i64(0x7FFFFFFFFFFFFFFF), i64::MAX);
}

#[test]
fn str_from_u8_stops_at_first_nul() {
    let r = str_from_u8(b"hello\0world").unwrap();
    assert_eq!(r, "hello");
}

#[test]
fn str_from_u8_takes_whole_buffer_without_nul() {
    let r = str_from_u8(b"hello").unwrap();
    assert_eq!(r, "hello");
}

#[test]
fn str_from_u8_empty_is_empty() {
    let r = str_from_u8(b"").unwrap();
    assert_eq!(r, "");
}

#[test]
fn str_from_u8_decodes_multibyte_text() {
    // A two-byte UTF-8 scalar must come back as its character, not as
    // raw bytes.
    let r = str_from_u8("h\u{e9}llo\0rest".as_bytes()).unwrap();
    assert_eq!(r, "h\u{e9}llo");
}

#[test]
fn str_from_u8_rejects_invalid_text() {
    let r = str_from_u8(&[0xFF, 0xFE, 0x01]);
    assert_eq!(r, Err(ParseError::InvalidText));
}
