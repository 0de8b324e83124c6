//! The section header table and the string tables it locates.

use crate::bytes::{
    bytes_value, lemma_bytes_value_fits_u32, lemma_bytes_value_fits_u64, read_u32, read_u64,
    Address,
};
use crate::ehdr::{Elf64Hdr, ElfHData};
use crate::parser::ParseError;
use vstd::prelude::*;

verus! {

/// Lower bound of the range of reserved section indices. A section
/// count at or above it means the real count is stored elsewhere, an
/// extension this decoder deliberately refuses.
pub const SHN_LORESERVE: u16 = 0xff00;

/// Section type value marking a section that stores a string table.
pub const SHT_STRTAB: u32 = 0x3;

/// What a string table names.
#[derive(Debug, Copy, Clone, PartialEq, Eq)]
pub enum StringTableType {
    /// An ordinary string table.
    StrTab,
    /// The section-name string table.
    ShStrTab,
    /// A dynamic-symbol string table: recognized, but no section is
    /// tagged with it yet.
    DynSym,
}

/// One string table copied out of the file.
#[derive(Debug, Clone, PartialEq, Eq)]
pub struct StringTable {
    /// Offset of the first byte of the table in the file.
    pub offset: u64,
    /// Size of the table in bytes.
    pub size: u64,
    /// The bytes of the table.
    pub table: Vec<u8>,
    /// What the table names.
    pub sh_type: StringTableType,
}

/// One decoded section header.
#[derive(Debug, Copy, Clone, PartialEq, Eq)]
pub struct Elf64SHdr {
    /// Name of the section: a byte offset into the section-name string
    /// table, not yet resolved.
    pub name: u32,
    /// Type of the section.
    pub s_type: u32,
    /// One-bit flags describing miscellaneous attributes.
    pub flags: u64,
    /// The address at which the section's first byte resides when the
    /// section is loaded into memory, otherwise 0.
    pub addr: Address,
    /// The offset from the start of the file to the section's first
    /// byte.
    pub offset: u64,
    /// Section size in bytes.
    pub size: u64,
    /// Index link into the section header table, whose meaning depends
    /// on the section type.
    pub link: u32,
    /// Extra information, whose meaning depends on the section type.
    pub info: u32,
    /// Alignment constraint of the section; 0 and 1 mean none.
    pub addr_align: u64,
    /// Size in bytes of one entry of the section's own sub-table, or 0
    /// when the section holds no such table.
    pub ent_size: u64,
}

/// Byte offset of record `i` of a table that starts at `off` with
/// entries of `entsize` bytes.
pub open spec fn sh_entry_base(off: int, entsize: int, i: int) -> int {
    off + i * entsize
}

/// The raw integer at bytes `[lo, lo + n)` of section header record
/// `i`, read in the byte order `d`.
pub open spec fn sh_raw(
    b: Seq<u8>,
    d: ElfHData,
    off: int,
    entsize: int,
    i: int,
    lo: int,
    n: int,
) -> int {
    bytes_value(
        b.subrange(sh_entry_base(off, entsize, i) + lo, sh_entry_base(off, entsize, i) + lo + n),
        d,
    )
}

/// Record `i`'s fixed fields lie inside the buffer: the declared entry
/// size covers the 64 decoded bytes and the record does not run off the
/// buffer end.
pub open spec fn sh_record_wf(b: Seq<u8>, off: int, entsize: int, i: int) -> bool {
    entsize >= 64 && sh_entry_base(off, entsize, i) + 64 <= b.len()
}

/// The header `e` is exactly the one decoded from section header
/// record `i`.
pub open spec fn sh_entry_matches(
    e: Elf64SHdr,
    b: Seq<u8>,
    d: ElfHData,
    off: int,
    entsize: int,
    i: int,
) -> bool {
    &&& e.name == sh_raw(b, d, off, entsize, i, 0, 4)
    &&& e.s_type == sh_raw(b, d, off, entsize, i, 4, 4)
    &&& e.flags == sh_raw(b, d, off, entsize, i, 8, 8)
    &&& e.addr.0 == sh_raw(b, d, off, entsize, i, 16, 8)
    &&& e.offset == sh_raw(b, d, off, entsize, i, 24, 8)
    &&& e.size == sh_raw(b, d, off, entsize, i, 32, 8)
    &&& e.link == sh_raw(b, d, off, entsize, i, 40, 4)
    &&& e.info == sh_raw(b, d, off, entsize, i, 44, 4)
    &&& e.addr_align == sh_raw(b, d, off, entsize, i, 48, 8)
    &&& e.ent_size == sh_raw(b, d, off, entsize, i, 56, 8)
}

/// The whole section header table of `num` records lies inside the
/// buffer.
pub open spec fn sh_table_wf(b: Seq<u8>, off: int, entsize: int, num: int) -> bool {
    forall|i: int| 0 <= i < num ==> #[trigger] sh_record_wf(b, off, entsize, i)
}

/// A string table section's extent lies inside the buffer.
pub open spec fn strtab_bounds(b: Seq<u8>, sh: Elf64SHdr) -> bool {
    sh.offset + sh.size <= b.len()
}

/// A string table is framed by NUL bytes: it is non-empty and both its
/// first and its last byte are NUL.
pub open spec fn strtab_framed(b: Seq<u8>, sh: Elf64SHdr) -> bool {
    &&& sh.size > 0
    &&& b[sh.offset as int] == 0
    &&& b[sh.offset + sh.size - 1] == 0
}

/// A string table section can be copied out: in bounds and NUL-framed.
pub open spec fn strtab_wf(b: Seq<u8>, sh: Elf64SHdr) -> bool {
    strtab_bounds(b, sh) && strtab_framed(b, sh)
}

/// The copied table `st` is exactly the one the section header `sh`
/// describes: its geometry, the bytes of the extent, and its tag,
/// which marks the section-name table exactly when `is_hdr` holds.
pub open spec fn table_matches(st: StringTable, b: Seq<u8>, sh: Elf64SHdr, is_hdr: bool) -> bool {
    &&& st.offset == sh.offset
    &&& st.size == sh.size
    &&& st.table@ == b.subrange(sh.offset as int, sh.offset + sh.size)
    &&& st.sh_type == (if is_hdr {
        StringTableType::ShStrTab
    } else {
        StringTableType::StrTab
    })
}

/// The error reported for a string table section that cannot be copied
/// out.
pub open spec fn strtab_err(b: Seq<u8>, sh: Elf64SHdr) -> ParseError {
    if !strtab_bounds(b, sh) {
        ParseError::TruncatedInput
    } else {
        ParseError::MalformedStringTable
    }
}

impl Elf64SHdr {
    /// The section carries a sub-table of its own exactly when its
    /// entry size is not zero.
    pub fn has_table(&self) -> (r: bool)
        ensures
            r == (self.ent_size != 0),
    {
        self.ent_size != 0
    }

    /// The section constrains its alignment exactly when the alignment
    /// field is neither 0 nor 1.
    pub fn has_align_constraints(&self) -> (r: bool)
        ensures
            r == (self.addr_align != 0 && self.addr_align != 1),
    {
        self.addr_align != 0 && self.addr_align != 1
    }

    /// Copies the string table a section header describes out of the
    /// buffer, checking its NUL framing, and tags it as the
    /// section-name table or an ordinary one.
    pub fn parse_str_table(data: &[u8], section_header: &Elf64SHdr, is_header_table: bool) -> (r:
        Result<StringTable, ParseError>)
        requires
            section_header.s_type == SHT_STRTAB,
        ensures
            r matches Ok(st) ==> strtab_wf(data@, *section_header) && table_matches(
                st,
                data@,
                *section_header,
                is_header_table,
            ),
            r matches Err(e) ==> !strtab_wf(data@, *section_header) && e == strtab_err(
                data@,
                *section_header,
            ),
    {
        let len = data.len();
        let off64 = section_header.offset;
        let siz64 = section_header.size;
        if off64 > len as u64 || siz64 > len as u64 - off64 {
            return Err(ParseError::TruncatedInput);
        }
        let off = off64 as usize;
        let siz = siz64 as usize;
        if siz == 0 {
            return Err(ParseError::MalformedStringTable);
        }
        if data[off] != 0 || data[off + siz - 1] != 0 {
            return Err(ParseError::MalformedStringTable);
        }
        let mut table: Vec<u8> = Vec::new();
        let mut i: usize = 0;
        while i < siz
            invariant
                i <= siz,
                off + siz <= len == data@.len(),
                table@ =~= data@.subrange(off as int, off + i),
            decreases siz - i,
        {
            table.push(data[off + i]);
            i = i + 1;
        }
        let sh_type = if is_header_table {
            StringTableType::ShStrTab
        } else {
            StringTableType::StrTab
        };
        Ok(StringTable { offset: off64, size: siz64, table, sh_type })
    }

    /// Decodes the whole section header table whose geometry the file
    /// header declares, in table order. A section count in the reserved
    /// range is refused outright; after that, the first record that
    /// runs off the buffer aborts the parse.
    pub fn parse(data: &[u8], headers: &Elf64Hdr) -> (r: Result<Vec<Elf64SHdr>, ParseError>)
        ensures
            ({
                let d = headers.ident.data;
                let off = headers.sh_off as int;
                let entsize = headers.sh_ent_size as int;
                match r {
                    Ok(v) => {
                        &&& headers.sh_num < SHN_LORESERVE
                        &&& sh_table_wf(data@, off, entsize, headers.sh_num as int)
                        &&& v@.len() == headers.sh_num
                        &&& forall|i: int|
                            0 <= i < headers.sh_num ==> #[trigger] sh_entry_matches(
                                v@[i],
                                data@,
                                d,
                                off,
                                entsize,
                                i,
                            )
                    },
                    Err(e) => {
                        ||| headers.sh_num >= SHN_LORESERVE && e
                            == ParseError::UnsupportedSectionTableOverflow
                        ||| {
                            &&& headers.sh_num < SHN_LORESERVE
                            &&& e == ParseError::TruncatedInput
                            &&& exists|i: int|
                                {
                                    &&& 0 <= i < headers.sh_num
                                    &&& !(#[trigger] sh_record_wf(data@, off, entsize, i))
                                    &&& forall|k: int|
                                        0 <= k < i ==> #[trigger] sh_record_wf(data@, off, entsize, k)
                                }
                        }
                    },
                }
            }),
    {
        let ghost goff = headers.sh_off as int;
        let ghost gentsize = headers.sh_ent_size as int;
        let d = headers.ident.data;
        let nth = headers.sh_num as usize;
        let off = headers.sh_off;
        let siz = headers.sh_ent_size as u64;
        let len = data.len();
        if headers.sh_num >= SHN_LORESERVE {
            // A count in the reserved range means the real count is in
            // the first section header's size field; decoding that
            // convention is out of scope, so fail rather than truncate.
            return Err(ParseError::UnsupportedSectionTableOverflow);
        }
        let mut out: Vec<Elf64SHdr> = Vec::new();
        let mut i: usize = 0;
        while i < nth
            invariant
                i <= nth,
                out@.len() == i,
                d == headers.ident.data,
                nth == headers.sh_num,
                off == headers.sh_off,
                siz == headers.sh_ent_size,
                goff == headers.sh_off as int,
                gentsize == headers.sh_ent_size as int,
                len == data@.len(),
                headers.sh_num < SHN_LORESERVE,
                forall|k: int|
                    0 <= k < i ==> #[trigger] sh_record_wf(data@, goff, gentsize, k)
                        && sh_entry_matches(out@[k], data@, d, goff, gentsize, k),
            decreases nth - i,
        {
            let ghost gi = i as int;
            if siz < 64 {
                proof {
                    assert(!sh_record_wf(data@, goff, gentsize, gi));
                }
                return Err(ParseError::TruncatedInput);
            }
            proof {
                vstd::arithmetic::mul::lemma_mul_upper_bound(i as int, 0xffff, siz as int, 0xffff);
            }
            let isiz: u64 = (i as u64) * siz;
            if off > len as u64 || isiz + 64 > len as u64 - off {
                proof {
                    assert(!sh_record_wf(data@, goff, gentsize, gi));
                }
                return Err(ParseError::TruncatedInput);
            }
            let base = (off + isiz) as usize;
            proof {
                assert(base == sh_entry_base(goff, gentsize, gi));
                lemma_bytes_value_fits_u32(data@.subrange(base as int, base + 4), d);
                lemma_bytes_value_fits_u32(data@.subrange(base + 4, base + 8), d);
                lemma_bytes_value_fits_u64(data@.subrange(base + 8, base + 16), d);
                lemma_bytes_value_fits_u64(data@.subrange(base + 16, base + 24), d);
                lemma_bytes_value_fits_u64(data@.subrange(base + 24, base + 32), d);
                lemma_bytes_value_fits_u64(data@.subrange(base + 32, base + 40), d);
                lemma_bytes_value_fits_u32(data@.subrange(base + 40, base + 44), d);
                lemma_bytes_value_fits_u32(data@.subrange(base + 44, base + 48), d);
                lemma_bytes_value_fits_u64(data@.subrange(base + 48, base + 56), d);
                lemma_bytes_value_fits_u64(data@.subrange(base + 56, base + 64), d);
            }
            out.push(
                Elf64SHdr {
                    name: read_u32(data, base, d),
                    s_type: read_u32(data, base + 4, d),
                    flags: read_u64(data, base + 8, d),
                    addr: Address(read_u64(data, base + 16, d)),
                    offset: read_u64(data, base + 24, d),
                    size: read_u64(data, base + 32, d),
                    link: read_u32(data, base + 40, d),
                    info: read_u32(data, base + 44, d),
                    addr_align: read_u64(data, base + 48, d),
                    ent_size: read_u64(data, base + 56, d),
                },
            );
            i = i + 1;
        }
        proof {
            assert forall|j: int| 0 <= j < headers.sh_num implies #[trigger] sh_entry_matches(
                out@[j],
                data@,
                d,
                goff,
                gentsize,
                j,
            ) by {
                assert(sh_record_wf(data@, goff, gentsize, j));
            }
        }
        Ok(out)
    }
}

} // verus!
