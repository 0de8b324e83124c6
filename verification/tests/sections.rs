use elf64::bytes::Address;
use elf64::ehdr::Elf64Hdr;
use elf64::parser::ParseError;
use elf64::shdr::{Elf64SHdr, StringTableType, SHT_STRTAB};

fn put_u64(b: &mut [u8], off: usize, v: u64) {
    let mut v = v;
    for i in 0..8 {
        b[off + i] = (v & 0xFF) as u8;
        v >>= 8;
    }
}

fn put_u32(b: &mut [u8], off: usize, v: u32) {
    let mut v = v;
    for i in 0..4 {
        b[off + i] = (v & 0xFF) as u8;
        v >>= 8;
    }
}

fn put_u16(b: &mut [u8], off: usize, v: u16) {
    b[off] = (v & 0xFF) as u8;
    b[off + 1] = (v >> 8) as u8;
}

/// A well-formed header whose section header table has `sh_num` entries
/// at offset 64.
fn header_with_shdrs(total: usize, sh_num: u16) -> Vec<u8> {
    let mut b = vec![0u8; total];
    b[0] = 0x7f;
    b[1] = b'E';
    b[2] = b'L';
    b[3] = b'F';
    b[4] = 2;
    b[5] = 1;
    b[6] = 1;
    b[16] = 2;
    put_u64(&mut b, 40, 64); // sh_off
    put_u16(&mut b, 58, 64); // sh_ent_size
    put_u16(&mut b, 60, sh_num);
    b
}

fn plain_section() -> Elf64SHdr {
    Elf64SHdr {
        name: 0,
        s_type: SHT_STRTAB,
        flags: 0,
        addr: Address(0),
        offset: 0,
        size: 0,
        link: 0,
        info: 0,
        addr_align: 0,
        ent_size: 0,
    }
}

#[test]
fn section_header_table_decodes_every_field() {
    let mut b = header_with_shdrs(256, 1);
    let e = 64;
    put_u32(&mut b, e, 17); // name
    put_u32(&mut b, e + 4, 1); // type
    put_u64(&mut b, e + 8, 6); // flags
    put_u64(&mut b, e + 16, 0x4000); // addr
    put_u64(&mut b, e + 24, 150); // offset
    put_u64(&mut b, e + 32, 32); // size
    put_u32(&mut b, e + 40, 2); // link
    put_u32(&mut b, e + 44, 3); // info
    put_u64(&mut b, e + 48, 16); // addr_align
    put_u64(&mut b, e + 56, 24); // ent_size
    let h = Elf64Hdr::parse(&b).unwrap();
    let v = Elf64SHdr::parse(&b, &h).unwrap();
    assert_eq!(v.len(), 1);
    let s = v[0];
    assert_eq!(s.name, 17);
    assert_eq!(s.s_type, 1);
    assert_eq!(s.flags, 6);
    assert_eq!(s.addr, Address(0x4000));
    assert_eq!(s.offset, 150);
    assert_eq!(s.size, 32);
    assert_eq!(s.link, 2);
    assert_eq!(s.info, 3);
    assert_eq!(s.addr_align, 16);
    assert_eq!(s.ent_size, 24);
}

#[test]
fn section_count_in_reserved_range_is_refused() {
    // The reserved-range convention stores the real count elsewhere;
    // decoding it is out of scope, and no silent truncation is allowed.
    for n in [0xff00u16, 0xff01, 0xffff] {
        let b = header_with_shdrs(256, n);
        let h = Elf64Hdr::parse(&b).unwrap();
        assert_eq!(
            Elf64SHdr::parse(&b, &h),
            Err(ParseError::UnsupportedSectionTableOverflow)
        );
    }
}

#[test]
fn section_record_past_buffer_end_is_truncated() {
    let b = header_with_shdrs(100, 1); // record needs bytes 64..128
    let h = Elf64Hdr::parse(&b).unwrap();
    assert_eq!(Elf64SHdr::parse(&b, &h), Err(ParseError::TruncatedInput));
}

#[test]
fn has_table_iff_entry_size_nonzero() {
    let mut s = plain_section();
    assert!(!s.has_table());
    s.ent_size = 24;
    assert!(s.has_table());
}

#[test]
fn has_align_constraints_iff_alignment_above_one() {
    let mut s = plain_section();
    assert!(!s.has_align_constraints());
    s.addr_align = 1;
    assert!(!s.has_align_constraints());
    s.addr_align = 2;
    assert!(s.has_align_constraints());
}

#[test]
fn string_table_is_copied_and_tagged() {
    let mut b = vec![0u8; 64];
    b[10] = 0;
    b[11] = b'a';
    b[12] = b'b';
    b[13] = 0;
    let mut sh = plain_section();
    sh.offset = 10;
    sh.size = 4;
    let st = Elf64SHdr::parse_str_table(&b, &sh, false).unwrap();
    assert_eq!(st.offset, 10);
    assert_eq!(st.size, 4);
    assert_eq!(st.table, vec![0, b'a', b'b', 0]);
    assert_eq!(st.sh_type, StringTableType::StrTab);
    let st = Elf64SHdr::parse_str_table(&b, &sh, true).unwrap();
    assert_eq!(st.sh_type, StringTableType::ShStrTab);
}

#[test]
fn string_table_not_starting_with_nul_is_rejected() {
    let mut b = vec![0u8; 64];
    b[10] = b'x';
    b[13] = 0;
    let mut sh = plain_section();
    sh.offset = 10;
    sh.size = 4;
    assert_eq!(
        Elf64SHdr::parse_str_table(&b, &sh, false),
        Err(ParseError::MalformedStringTable)
    );
}

#[test]
fn string_table_not_ending_with_nul_is_rejected() {
    let mut b = vec![0u8; 64];
    b[13] = b'x';
    let mut sh = plain_section();
    sh.offset = 10;
    sh.size = 4;
    assert_eq!(
        Elf64SHdr::parse_str_table(&b, &sh, false),
        Err(ParseError::MalformedStringTable)
    );
}

#[test]
fn empty_string_table_is_rejected() {
    let b = vec![0u8; 64];
    let mut sh = plain_section();
    sh.offset = 10;
    sh.size = 0;
    assert_eq!(
        Elf64SHdr::parse_str_table(&b, &sh, false),
        Err(ParseError::MalformedStringTable)
    );
}

#[test]
fn string_table_extent_past_buffer_end_is_truncated() {
    let b = vec![0u8; 64];
    let mut sh = plain_section();
    sh.offset = 60;
    sh.size = 10;
    assert_eq!(
        Elf64SHdr::parse_str_table(&b, &sh, false),
        Err(ParseError::TruncatedInput)
    );
}
