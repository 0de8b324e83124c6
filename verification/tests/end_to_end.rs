use elf64::parser::{ElfParser, ParseError};
use elf64::phdr::{PType, PTypeData};
use elf64::shdr::StringTableType;

fn put_u64(b: &mut [u8], off: usize, v: u64) {
    let mut v = v;
    for i in 0..8 {
        b[off + i] = (v & 0xFF) as u8;
        v >>= 8;
    }
}

fn put_u32(b: &mut [u8], off: usize, v: u32) {
    let mut v = v;
    for i in 0..4 {
        b[off + i] = (v & 0xFF) as u8;
        v >>= 8;
    }
}

fn put_u16(b: &mut [u8], off: usize, v: u16) {
    b[off] = (v & 0xFF) as u8;
    b[off + 1] = (v >> 8) as u8;
}

/// A minimal 64-bit little-endian executable: one loadable segment of
/// file size 4 and memory size 8 holding DE AD BE EF, one `.text`
/// section, and the section-name string table `\0.text\0.data\0`.
fn minimal_elf() -> Vec<u8> {
    let mut b = vec![0u8; 265];
    // Identification block.
    b[0] = 0x7f;
    b[1] = b'E';
    b[2] = b'L';
    b[3] = b'F';
    b[4] = 2; // 64-bit
    b[5] = 1; // little-endian
    b[6] = 1; // current
    // File header.
    put_u16(&mut b, 16, 2); // executable
    put_u16(&mut b, 18, 0xF3); // machine
    put_u32(&mut b, 20, 1); // version
    put_u64(&mut b, 24, 0x1000); // entry
    put_u64(&mut b, 32, 64); // ph_off
    put_u64(&mut b, 40, 137); // sh_off
    put_u16(&mut b, 52, 64); // eh_size
    put_u16(&mut b, 54, 56); // ph_ent_size
    put_u16(&mut b, 56, 1); // ph_num
    put_u16(&mut b, 58, 64); // sh_ent_size
    put_u16(&mut b, 60, 2); // sh_num
    put_u16(&mut b, 62, 0); // sh_str_ndx: section 0 names sections
    // Program header 0: loadable, file size 4, memory size 8.
    put_u32(&mut b, 64, 1); // PT_LOAD
    put_u32(&mut b, 68, 5); // flags
    put_u64(&mut b, 72, 120); // offset
    put_u64(&mut b, 80, 0x1000); // vaddr
    put_u64(&mut b, 88, 0x1000); // paddr
    put_u64(&mut b, 96, 4); // filesz
    put_u64(&mut b, 104, 8); // memsz
    put_u64(&mut b, 112, 0x1000); // align
    // Segment bytes.
    b[120] = 0xDE;
    b[121] = 0xAD;
    b[122] = 0xBE;
    b[123] = 0xEF;
    // Section-name string table: \0.text\0.data\0 at 124..137.
    let names = b"\0.text\0.data\0";
    b[124..137].copy_from_slice(names);
    // Section header 0: the section-name string table.
    let e0 = 137;
    put_u32(&mut b, e0, 7); // name offset: ".data"
    put_u32(&mut b, e0 + 4, 3); // SHT_STRTAB
    put_u64(&mut b, e0 + 24, 124); // offset
    put_u64(&mut b, e0 + 32, 13); // size
    put_u64(&mut b, e0 + 48, 1); // addr_align
    // Section header 1: .text.
    let e1 = 137 + 64;
    put_u32(&mut b, e1, 1); // name offset: ".text"
    put_u32(&mut b, e1 + 4, 1); // SHT_PROGBITS
    put_u64(&mut b, e1 + 16, 0x1000); // addr
    put_u64(&mut b, e1 + 24, 120); // offset
    put_u64(&mut b, e1 + 32, 4); // size
    put_u64(&mut b, e1 + 48, 4); // addr_align
    b
}

#[test]
fn minimal_executable_parses_end_to_end() {
    let b = minimal_elf();
    let p = ElfParser::parse(&b).unwrap();

    assert_eq!(p.headers.entry.0, 0x1000);
    assert_eq!(p.headers.ph_num, 1);
    assert_eq!(p.headers.sh_num, 2);

    assert_eq!(p.program_headers.len(), 1);
    let seg = &p.program_headers[0];
    assert_eq!(seg.p_type, PType::PtLoad);
    assert_eq!(seg.filesz, 4);
    assert_eq!(seg.memsz, 8);
    assert_eq!(
        seg.section,
        PTypeData::PtLoadData(vec![0xDE, 0xAD, 0xBE, 0xEF, 0, 0, 0, 0])
    );

    assert_eq!(p.section_headers.len(), 2);
    assert_eq!(p.section_headers[0].s_type, 3);
    assert_eq!(p.section_headers[1].s_type, 1);

    assert_eq!(p.string_tables.len(), 1);
    assert_eq!(p.header_string_table_idx, 0);
    let names = &p.string_tables[p.header_string_table_idx];
    assert_eq!(names.sh_type, StringTableType::ShStrTab);
    assert_eq!(names.table, b"\0.text\0.data\0".to_vec());

    // The `.text` section header names itself through the table.
    let text = ElfParser::get_sh_name(names, p.section_headers[1].name).unwrap();
    assert_eq!(text, ".text");
    // One byte further in, the name loses its leading dot.
    assert_eq!(ElfParser::get_sh_name(names, 2).unwrap(), "text");
    assert_eq!(ElfParser::get_sh_name(names, 7).unwrap(), ".data");
    // At the final NUL the resolved name is empty.
    assert_eq!(ElfParser::get_sh_name(names, 12).unwrap(), "");
}

#[test]
fn section_count_overflow_fails_whole_parse() {
    // A section count at the reserved threshold must surface as the
    // overflow error, never as a silent truncation to zero sections.
    let mut b = minimal_elf();
    put_u16(&mut b, 60, 0xff00);
    assert_eq!(
        ElfParser::parse(&b),
        Err(ParseError::UnsupportedSectionTableOverflow)
    );
}

#[test]
fn unframed_string_table_fails_whole_parse() {
    let mut b = minimal_elf();
    b[124] = b'A'; // the table no longer begins with NUL
    assert_eq!(ElfParser::parse(&b), Err(ParseError::MalformedStringTable));
}

#[test]
fn missing_section_name_table_fails_whole_parse() {
    let mut b = minimal_elf();
    put_u16(&mut b, 62, 1); // sh_str_ndx points at .text, not a string table
    assert_eq!(ElfParser::parse(&b), Err(ParseError::MissingSectionNameTable));
}

#[test]
fn whole_parse_propagates_header_errors() {
    let mut b = minimal_elf();
    b[1] = b'X';
    assert_eq!(ElfParser::parse(&b), Err(ParseError::InvalidMagic));
    let b = vec![0u8; 3];
    assert_eq!(ElfParser::parse(&b), Err(ParseError::TruncatedInput));
}

#[test]
fn whole_parse_propagates_segment_errors() {
    let mut b = minimal_elf();
    put_u64(&mut b, 96, 9); // filesz 9 > memsz 8
    assert_eq!(ElfParser::parse(&b), Err(ParseError::MalformedSegment));
}

#[test]
fn name_resolution_of_invalid_text_fails() {
    let mut b = minimal_elf();
    b[125] = 0xFF; // not valid UTF-8 inside the first name
    let p = ElfParser::parse(&b).unwrap();
    let names = &p.string_tables[0];
    assert_eq!(
        ElfParser::get_sh_name(names, 1),
        Err(ParseError::InvalidText)
    );
}
