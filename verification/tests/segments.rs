use elf64::bytes::Address;
use elf64::ehdr::Elf64Hdr;
use elf64::parser::ParseError;
use elf64::phdr::{DynValue, Elf64PHdr, PType, PTypeData, ELF64Dyn};

fn put_u64(b: &mut [u8], off: usize, v: u64) {
    let mut v = v;
    for i in 0..8 {
        b[off + i] = (v & 0xFF) as u8;
        v >>= 8;
    }
}

fn put_u32(b: &mut [u8], off: usize, v: u32) {
    let mut v = v;
    for i in 0..4 {
        b[off + i] = (v & 0xFF) as u8;
        v >>= 8;
    }
}

fn put_u16(b: &mut [u8], off: usize, v: u16) {
    b[off] = (v & 0xFF) as u8;
    b[off + 1] = (v >> 8) as u8;
}

/// A well-formed header whose program header table has `ph_num` entries
/// at offset 64.
fn header_with_phdrs(total: usize, ph_num: u16) -> Vec<u8> {
    let mut b = vec![0u8; total];
    b[0] = 0x7f;
    b[1] = b'E';
    b[2] = b'L';
    b[3] = b'F';
    b[4] = 2;
    b[5] = 1;
    b[6] = 1;
    b[16] = 2;
    put_u64(&mut b, 32, 64); // ph_off
    put_u16(&mut b, 54, 56); // ph_ent_size
    put_u16(&mut b, 56, ph_num);
    b
}

fn parsed_header(b: &[u8]) -> Elf64Hdr {
    Elf64Hdr::parse(b).unwrap()
}

#[test]
fn loadable_image_is_zero_extended_to_memory_size() {
    // File size 4, memory size 8: the image holds the four file bytes
    // then four zeros.
    let mut b = header_with_phdrs(128, 0);
    b[100] = 0xDE;
    b[101] = 0xAD;
    b[102] = 0xBE;
    b[103] = 0xEF;
    let h = parsed_header(&b);
    let r = PTypeData::parse_section(&PType::PtLoad, &h, 4, 8, 100, &b).unwrap();
    assert_eq!(r, PTypeData::PtLoadData(vec![0xDE, 0xAD, 0xBE, 0xEF, 0, 0, 0, 0]));
}

#[test]
fn loadable_image_with_equal_sizes_copies_exactly() {
    let mut b = header_with_phdrs(128, 0);
    b[100] = 7;
    b[101] = 8;
    let h = parsed_header(&b);
    let r = PTypeData::parse_section(&PType::PtLoad, &h, 2, 2, 100, &b).unwrap();
    assert_eq!(r, PTypeData::PtLoadData(vec![7, 8]));
}

#[test]
fn file_size_above_memory_size_is_malformed_segment() {
    let b = header_with_phdrs(128, 0);
    let h = parsed_header(&b);
    let r = PTypeData::parse_section(&PType::PtLoad, &h, 8, 4, 100, &b);
    assert_eq!(r, Err(ParseError::MalformedSegment));
}

#[test]
fn loadable_extent_past_buffer_end_is_truncated() {
    let b = header_with_phdrs(128, 0);
    let h = parsed_header(&b);
    let r = PTypeData::parse_section(&PType::PtLoad, &h, 64, 64, 100, &b);
    assert_eq!(r, Err(ParseError::TruncatedInput));
}

#[test]
fn dynamic_tags_classify_by_parity() {
    // Tags 0 (even), 1 (odd), 2 (even): pointer, scalar, pointer.
    let mut b = header_with_phdrs(160, 0);
    let base = 100;
    put_u64(&mut b, base, 0);
    put_u64(&mut b, base + 8, 0x11);
    put_u64(&mut b, base + 16, 1);
    put_u64(&mut b, base + 24, 0x22);
    put_u64(&mut b, base + 32, 2);
    put_u64(&mut b, base + 40, 0x33);
    let h = parsed_header(&b);
    let r = PTypeData::parse_section(&PType::PtDynamic, &h, 48, 0, base as u64, &b).unwrap();
    assert_eq!(
        r,
        PTypeData::PtDynamicData(vec![
            ELF64Dyn { d_tag: 0, d_un: DynValue::DPtr(Address(0x11)) },
            ELF64Dyn { d_tag: 1, d_un: DynValue::DVal(0x22) },
            ELF64Dyn { d_tag: 2, d_un: DynValue::DPtr(Address(0x33)) },
        ])
    );
}

#[test]
fn dynamic_extent_with_partial_record_is_truncated() {
    let b = header_with_phdrs(160, 0);
    let h = parsed_header(&b);
    let r = PTypeData::parse_section(&PType::PtDynamic, &h, 17, 0, 100, &b);
    assert_eq!(r, Err(ParseError::TruncatedInput));
}

#[test]
fn other_segment_types_carry_no_payload() {
    let b = header_with_phdrs(128, 0);
    let h = parsed_header(&b);
    for t in [PType::PtNull, PType::PtInterp, PType::PtNote, PType::PtPhdr] {
        let r = PTypeData::parse_section(&t, &h, 4, 8, 100, &b).unwrap();
        assert_eq!(r, PTypeData::Ignorable);
    }
}

#[test]
fn dyn_value_follows_tag_parity_for_negative_tags_too() {
    assert_eq!(ELF64Dyn::d_un(0, 5), DynValue::DPtr(Address(5)));
    assert_eq!(ELF64Dyn::d_un(1, 5), DynValue::DVal(5));
    assert_eq!(ELF64Dyn::d_un(-2, 5), DynValue::DPtr(Address(5)));
    assert_eq!(ELF64Dyn::d_un(-3, 5), DynValue::DVal(5));
    assert_eq!(ELF64Dyn::d_un(i64::MIN, 9), DynValue::DPtr(Address(9)));
    assert_eq!(ELF64Dyn::d_un(i64::MAX, 9), DynValue::DVal(9));
}

#[test]
fn segment_type_values_map_to_named_types_and_buckets() {
    assert_eq!(PType::try_from_u32(0).unwrap(), PType::PtNull);
    assert_eq!(PType::try_from_u32(1).unwrap(), PType::PtLoad);
    assert_eq!(PType::try_from_u32(2).unwrap(), PType::PtDynamic);
    assert_eq!(PType::try_from_u32(7).unwrap(), PType::PtTls);
    assert_eq!(PType::try_from_u32(0x60000000).unwrap(), PType::PtLoos);
    assert_eq!(PType::try_from_u32(0x6fffffff).unwrap(), PType::PtHios);
    assert_eq!(PType::try_from_u32(0x70000000).unwrap(), PType::PtLoProc);
    assert_eq!(PType::try_from_u32(0x7fffffff).unwrap(), PType::PtHiProc);
    assert_eq!(PType::try_from_u32(0xffffffff).unwrap(), PType::PtHiProc);
    assert_eq!(
        PType::try_from_u32(8),
        Err(ParseError::UnrecognizedSegmentOrSectionType)
    );
    assert_eq!(
        PType::try_from_u32(0x5fffffff),
        Err(ParseError::UnrecognizedSegmentOrSectionType)
    );
}

#[test]
fn program_header_table_decodes_in_order() {
    // Two entries: a loadable segment and a note segment.
    let mut b = header_with_phdrs(256, 2);
    let e0 = 64;
    put_u32(&mut b, e0, 1); // PT_LOAD
    put_u32(&mut b, e0 + 4, 5); // flags
    put_u64(&mut b, e0 + 8, 200); // offset
    put_u64(&mut b, e0 + 16, 0x1000); // vaddr
    put_u64(&mut b, e0 + 24, 0x2000); // paddr
    put_u64(&mut b, e0 + 32, 2); // filesz
    put_u64(&mut b, e0 + 40, 4); // memsz
    put_u64(&mut b, e0 + 48, 8); // align
    let e1 = 64 + 56;
    put_u32(&mut b, e1, 4); // PT_NOTE
    put_u32(&mut b, e1 + 4, 4);
    b[200] = 0xAB;
    b[201] = 0xCD;
    let h = parsed_header(&b);
    let v = Elf64PHdr::parse(&b, &h).unwrap();
    assert_eq!(v.len(), 2);
    assert_eq!(v[0].p_type, PType::PtLoad);
    assert_eq!(v[0].flags, 5);
    assert_eq!(v[0].offset, 200);
    assert_eq!(v[0].vaddr, Address(0x1000));
    assert_eq!(v[0].paddr, Address(0x2000));
    assert_eq!(v[0].filesz, 2);
    assert_eq!(v[0].memsz, 4);
    assert_eq!(v[0].align, 8);
    assert_eq!(v[0].section, PTypeData::PtLoadData(vec![0xAB, 0xCD, 0, 0]));
    assert_eq!(v[1].p_type, PType::PtNote);
    assert_eq!(v[1].section, PTypeData::Ignorable);
}

#[test]
fn program_header_record_past_buffer_end_is_truncated() {
    let mut b = header_with_phdrs(100, 1); // record needs bytes 64..120
    put_u16(&mut b, 56, 1);
    let h = parsed_header(&b);
    assert_eq!(Elf64PHdr::parse(&b, &h), Err(ParseError::TruncatedInput));
}

#[test]
fn unrecognized_segment_type_aborts_table_parse() {
    let mut b = header_with_phdrs(256, 1);
    put_u32(&mut b, 64, 9); // in the unrecognized gap
    let h = parsed_header(&b);
    assert_eq!(
        Elf64PHdr::parse(&b, &h),
        Err(ParseError::UnrecognizedSegmentOrSectionType)
    );
}

#[test]
fn malformed_segment_aborts_table_parse() {
    let mut b = header_with_phdrs(256, 1);
    put_u32(&mut b, 64, 1); // PT_LOAD
    put_u64(&mut b, 64 + 32, 8); // filesz
    put_u64(&mut b, 64 + 40, 4); // memsz < filesz
    let h = parsed_header(&b);
    assert_eq!(Elf64PHdr::parse(&b, &h), Err(ParseError::MalformedSegment));
}

#[test]
fn table_parsers_honor_big_endian_headers() {
    // The table parsers decode in whichever byte order the header
    // carries, even though the pipeline itself admits only the
    // little-endian encoding.
    let mut b = header_with_phdrs(256, 1);
    let h0 = parsed_header(&b);
    let mut h = h0;
    h.ident.data = elf64::ehdr::ElfHData::ElfData2Msb;
    let e0 = 64;
    // PT_NOTE and its flags, written big-endian.
    b[e0 + 3] = 4;
    b[e0 + 7] = 9;
    let v = Elf64PHdr::parse(&b, &h).unwrap();
    assert_eq!(v[0].p_type, PType::PtNote);
    assert_eq!(v[0].flags, 9);
}

#[test]
fn empty_program_header_table_is_empty() {
    let b = header_with_phdrs(64, 0);
    let h = parsed_header(&b);
    assert_eq!(Elf64PHdr::parse(&b, &h).unwrap(), vec![]);
}
